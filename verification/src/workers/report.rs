//! Outcomes of leases.

use vstd::prelude::*;

use crate::control_plane::LeaseReport;
use crate::observation::Observation;

verus! {

/// A lease and what was observed for it.
pub struct ReportEntry {
    pub lease_id: u64,
    pub observations: Seq<Observation>,
}

/// The contents of reports.
pub open spec fn entries(reports: Seq<LeaseReport>) -> Seq<ReportEntry> {
    reports.map_values(
        |r: LeaseReport| ReportEntry { lease_id: r.lease_id, observations: r.observations@ },
    )
}

/// Leases that ended without any observation.
pub open spec fn bare_entries(ids: Seq<u64>) -> Seq<ReportEntry> {
    ids.map_values(|id: u64| ReportEntry { lease_id: id, observations: Seq::empty() })
}

/// The leases that a worker completed and those that were cancelled.
#[derive(Debug)]
pub struct WorkerReport {
    completed: Vec<LeaseReport>,
    cancelled: Vec<LeaseReport>,
}

/// The contents of a [`WorkerReport`].
pub struct WorkerReportView {
    pub completed: Seq<ReportEntry>,
    pub cancelled: Seq<ReportEntry>,
}

impl View for WorkerReport {
    type V = WorkerReportView;

    closed spec fn view(&self) -> WorkerReportView {
        WorkerReportView {
            completed: entries(self.completed@),
            cancelled: entries(self.cancelled@),
        }
    }
}

/// Index of the first entry of `lease_id`, or the number of entries if there is none.
pub open spec fn first_entry(list: Seq<ReportEntry>, lease_id: u64) -> int
    decreases list.len(),
{
    if list.len() == 0 || list[0].lease_id == lease_id {
        0
    } else {
        1 + first_entry(list.skip(1), lease_id)
    }
}

/// `list` with `more` appended to the observations of entry `i`.
pub open spec fn with_more(list: Seq<ReportEntry>, i: int, more: Seq<Observation>) -> Seq<
    ReportEntry,
> {
    list.update(
        i,
        ReportEntry {
            lease_id: list[i].lease_id,
            observations: list[i].observations + more,
        },
    )
}

impl WorkerReportView {
    pub open spec fn only_completed(lease_id: u64) -> WorkerReportView {
        WorkerReportView { completed: bare_entries(seq![lease_id]), cancelled: Seq::empty() }
    }

    pub open spec fn only_cancelled(lease_id: u64) -> WorkerReportView {
        WorkerReportView { completed: Seq::empty(), cancelled: bare_entries(seq![lease_id]) }
    }

    /// The report with `more` appended to the observations of the first entry of `lease_id`,
    /// completed leases first. Nothing happens if there is no such entry.
    pub open spec fn observed(self, lease_id: u64, more: Seq<Observation>) -> WorkerReportView {
        let i = first_entry(self.completed, lease_id);
        let j = first_entry(self.cancelled, lease_id);
        if i < self.completed.len() {
            WorkerReportView { completed: with_more(self.completed, i, more), ..self }
        } else if j < self.cancelled.len() {
            WorkerReportView { cancelled: with_more(self.cancelled, j, more), ..self }
        } else {
            self
        }
    }
}

proof fn lemma_first_entry(list: Seq<ReportEntry>, lease_id: u64)
    ensures
        0 <= first_entry(list, lease_id) <= list.len(),
        first_entry(list, lease_id) < list.len() ==> list[first_entry(list, lease_id)].lease_id
            == lease_id,
        forall|k: int| 0 <= k < first_entry(list, lease_id) ==> list[k].lease_id != lease_id,
    decreases list.len(),
{
    if list.len() == 0 || list[0].lease_id == lease_id {
    } else {
        lemma_first_entry(list.skip(1), lease_id);
        assert forall|k: int| 0 <= k < first_entry(list, lease_id) implies list[k].lease_id
            != lease_id by {
            if k > 0 {
                assert(list.skip(1)[k - 1] == list[k]);
            }
        }
    }
}

/// Reports without observations.
fn bare(ids: &Vec<u64>) -> (r: Vec<LeaseReport>)
    ensures
        entries(r@) == bare_entries(ids@),
{
    let mut r: Vec<LeaseReport> = Vec::new();
    let mut i: usize = 0;
    assert(entries(r@) =~= bare_entries(ids@.take(0)));
    while i < ids.len()
        invariant
            i <= ids.len(),
            entries(r@) == bare_entries(ids@.take(i as int)),
        decreases ids.len() - i,
    {
        let ghost before = r@;
        r.push(LeaseReport { lease_id: ids[i], observations: Vec::new() });
        proof {
            let entry = ReportEntry { lease_id: ids@[i as int], observations: Seq::empty() };
            assert(r@.last().observations@ =~= Seq::empty());
            assert(entries(r@) =~= entries(before).push(entry));
            assert(bare_entries(ids@.take(i + 1)) =~= bare_entries(ids@.take(i as int)).push(entry));
        }
        i = i + 1;
    }
    assert(ids@.take(i as int) =~= ids@);
    r
}

/// Appends `more` to the observations of the first report of `lease_id`. Hands `more` back
/// if there is none.
fn attach(reports: &mut Vec<LeaseReport>, lease_id: u64, more: Vec<Observation>) -> (r: Option<
    Vec<Observation>,
>)
    ensures
        ({
            let i = first_entry(entries(old(reports)@), lease_id);
            if i < old(reports)@.len() {
                r is None && entries(final(reports)@) == with_more(
                    entries(old(reports)@),
                    i,
                    more@,
                )
            } else {
                r == Some(more) && *final(reports) == *old(reports)
            }
        }),
{
    let ghost list = entries(reports@);
    let ghost first = first_entry(list, lease_id);
    proof {
        lemma_first_entry(list, lease_id);
    }
    let mut i: usize = 0;
    while i < reports.len() && reports[i].lease_id != lease_id
        invariant
            i <= reports.len(),
            *reports == *old(reports),
            list == entries(reports@),
            0 <= first <= list.len(),
            first < list.len() ==> list[first].lease_id == lease_id,
            i <= first,
        decreases reports.len() - i,
    {
        assert(list[i as int].lease_id == reports@[i as int].lease_id);
        i = i + 1;
    }
    if i == reports.len() {
        return Some(more);
    }
    assert(list[i as int].lease_id == lease_id);
    let mut more: Vec<Observation> = more;
    let ghost added = more@;
    let entry: &mut LeaseReport = &mut reports[i];
    entry.observations.append(&mut more);
    assert(entries(reports@) =~= with_more(list, first, added));
    None
}

impl WorkerReport {
    pub fn completed(lease_id: u64) -> (r: WorkerReport)
        ensures
            r@ == WorkerReportView::only_completed(lease_id),
    {
        let ids: Vec<u64> = vec![lease_id];
        assert(ids@ =~= seq![lease_id]);
        WorkerReport::completed_many(ids)
    }

    pub fn completed_many(ids: Vec<u64>) -> (r: WorkerReport)
        ensures
            r@ == (WorkerReportView { completed: bare_entries(ids@), cancelled: Seq::empty() }),
    {
        let r: WorkerReport = WorkerReport { completed: bare(&ids), cancelled: Vec::new() };
        assert(r@.cancelled =~= Seq::empty());
        r
    }

    pub fn cancelled(lease_id: u64) -> (r: WorkerReport)
        ensures
            r@ == WorkerReportView::only_cancelled(lease_id),
    {
        let ids: Vec<u64> = vec![lease_id];
        assert(ids@ =~= seq![lease_id]);
        WorkerReport::cancelled_many(ids)
    }

    pub fn cancelled_many(ids: Vec<u64>) -> (r: WorkerReport)
        ensures
            r@ == (WorkerReportView { completed: Seq::empty(), cancelled: bare_entries(ids@) }),
    {
        let r: WorkerReport = WorkerReport { completed: Vec::new(), cancelled: bare(&ids) };
        assert(r@.completed =~= Seq::empty());
        r
    }

    /// The leases of both reports.
    pub fn merge(self, other: WorkerReport) -> (r: WorkerReport)
        ensures
            r@.completed == self@.completed + other@.completed,
            r@.cancelled == self@.cancelled + other@.cancelled,
    {
        let mut completed: Vec<LeaseReport> = self.completed;
        let mut cancelled: Vec<LeaseReport> = self.cancelled;
        let mut more_completed: Vec<LeaseReport> = other.completed;
        let mut more_cancelled: Vec<LeaseReport> = other.cancelled;
        completed.append(&mut more_completed);
        cancelled.append(&mut more_cancelled);
        let r: WorkerReport = WorkerReport { completed, cancelled };
        assert(r@.completed =~= self@.completed + other@.completed);
        assert(r@.cancelled =~= self@.cancelled + other@.cancelled);
        r
    }

    pub fn with_observation(self, lease_id: u64, observation: Observation) -> (r: WorkerReport)
        ensures
            r@ == self@.observed(lease_id, seq![observation]),
    {
        let mut more: Vec<Observation> = Vec::new();
        more.push(observation);
        assert(more@ =~= seq![observation]);
        self.with_observations(lease_id, more)
    }

    pub fn with_observations(self, lease_id: u64, observations: Vec<Observation>) -> (r:
        WorkerReport)
        ensures
            r@ == self@.observed(lease_id, observations@),
    {
        let mut report: WorkerReport = self;
        if let Some(more) = attach(&mut report.completed, lease_id, observations) {
            attach(&mut report.cancelled, lease_id, more);
        }
        report
    }

    pub fn into_parts(self) -> (r: (Vec<LeaseReport>, Vec<LeaseReport>))
        ensures
            entries(r.0@) == self@.completed,
            entries(r.1@) == self@.cancelled,
    {
        (self.completed, self.cancelled)
    }

    pub fn is_empty(&self) -> (r: bool)
        ensures
            r == (self@.completed.len() == 0 && self@.cancelled.len() == 0),
    {
        self.completed.len() == 0 && self.cancelled.len() == 0
    }
}

/// The ids of leases.
pub open spec fn ids_of(list: Seq<ReportEntry>) -> Seq<u64> {
    list.map_values(|e: ReportEntry| e.lease_id)
}

/// Adding observations changes no lease's outcome.
pub proof fn law_observing_keeps_outcomes(
    report: WorkerReportView,
    lease_id: u64,
    more: Seq<Observation>,
)
    ensures
        ids_of(report.observed(lease_id, more).completed) == ids_of(report.completed),
        ids_of(report.observed(lease_id, more).cancelled) == ids_of(report.cancelled),
{
    lemma_first_entry(report.completed, lease_id);
    lemma_first_entry(report.cancelled, lease_id);
    assert(ids_of(report.observed(lease_id, more).completed) =~= ids_of(report.completed));
    assert(ids_of(report.observed(lease_id, more).cancelled) =~= ids_of(report.cancelled));
}

/// Observations of a lease that was just completed end up with it, in the order in which
/// they were added.
pub proof fn law_observations_accumulate(lease_id: u64, a: Seq<Observation>, b: Seq<Observation>)
    ensures
        WorkerReportView::only_completed(lease_id).observed(lease_id, a).observed(lease_id, b)
            == (WorkerReportView {
            completed: seq![ReportEntry { lease_id, observations: a + b }],
            cancelled: Seq::empty(),
        }),
{
    let report = WorkerReportView::only_completed(lease_id);
    let once = report.observed(lease_id, a);
    assert(first_entry(report.completed, lease_id) == 0);
    assert(once.completed[0].observations =~= a);
    assert(first_entry(once.completed, lease_id) == 0);
    let twice = once.observed(lease_id, b);
    assert(twice.completed =~= seq![ReportEntry { lease_id, observations: a + b }]);
}

impl WorkerReportView {
    /// The report holds the lease `lease_id` and no other.
    pub open spec fn is_single(self, lease_id: u64, cancelled: bool) -> bool {
        if cancelled {
            self.completed.len() == 0 && self.cancelled.len() == 1 && self.cancelled[0].lease_id
                == lease_id
        } else {
            self.cancelled.len() == 0 && self.completed.len() == 1 && self.completed[0].lease_id
                == lease_id
        }
    }

    /// The observations of the only lease in the report.
    pub open spec fn observations(self, cancelled: bool) -> Seq<Observation> {
        if cancelled {
            self.cancelled[0].observations
        } else {
            self.completed[0].observations
        }
    }
}

/// Reports one lease.
pub(crate) fn single_report(lease_id: u64, cancelled: bool, observations: Vec<Observation>) -> (r:
    WorkerReport)
    ensures
        r@.is_single(lease_id, cancelled),
        r@.observations(cancelled) == observations@,
{
    let base: WorkerReport = if cancelled {
        WorkerReport::cancelled(lease_id)
    } else {
        WorkerReport::completed(lease_id)
    };
    proof {
        let bare = bare_entries(seq![lease_id]);
        assert(bare.len() == 1);
        assert(first_entry(bare, lease_id) == 0);
        assert(first_entry(Seq::empty(), lease_id) == 0);
        assert(Seq::empty() + observations@ =~= observations@);
    }
    base.with_observations(lease_id, observations)
}

/// What is observed of a lease is added behind what its first entry holds already, among the
/// completed leases if it is there, else among the cancelled ones. Nothing else changes.
pub proof fn law_observations_go_to_their_lease(
    report: WorkerReportView,
    lease_id: u64,
    more: Seq<Observation>,
)
    ensures
        ({
            let after = report.observed(lease_id, more);
            let done = exists|k: int|
                0 <= k < report.completed.len() && (#[trigger] report.completed[k]).lease_id
                    == lease_id;
            &&& after.completed.len() == report.completed.len()
            &&& after.cancelled.len() == report.cancelled.len()
            &&& forall|k: int|
                0 <= k < report.completed.len() ==> (#[trigger] after.completed[k]).lease_id
                    == report.completed[k].lease_id && after.completed[k].observations == (if
                report.completed[k].lease_id == lease_id && forall|q: int|
                    0 <= q < k ==> (#[trigger] report.completed[q]).lease_id != lease_id {
                    report.completed[k].observations + more
                } else {
                    report.completed[k].observations
                })
            &&& forall|k: int|
                0 <= k < report.cancelled.len() ==> (#[trigger] after.cancelled[k]).lease_id
                    == report.cancelled[k].lease_id && after.cancelled[k].observations == (if !done
                    && report.cancelled[k].lease_id == lease_id && forall|q: int|
                    0 <= q < k ==> (#[trigger] report.cancelled[q]).lease_id != lease_id {
                    report.cancelled[k].observations + more
                } else {
                    report.cancelled[k].observations
                })
        }),
{
    lemma_first_entry(report.completed, lease_id);
    lemma_first_entry(report.cancelled, lease_id);
}

/// A report holds the leases that it was made of, in their order, each with its observations, and
/// those that were named alone without any.
pub proof fn law_report_holds_its_leases(reports: Seq<LeaseReport>, ids: Seq<u64>, i: int)
    ensures
        entries(reports).len() == reports.len(),
        0 <= i < reports.len() ==> entries(reports)[i].lease_id == reports[i].lease_id && entries(
            reports,
        )[i].observations == reports[i].observations@,
        bare_entries(ids).len() == ids.len(),
        0 <= i < ids.len() ==> bare_entries(ids)[i].lease_id == ids[i] && bare_entries(
            ids,
        )[i].observations.len() == 0,
{
}

} // verus!
