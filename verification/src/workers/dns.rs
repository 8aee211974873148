//! DNS and HTTP checks.

use vstd::prelude::*;
use vstd::string::*;

use crate::control_plane::{Lease, TaskSpec};
use crate::net::IpAddr;
use crate::observation::{
    field_views, number_field, push_field, record, text_field, Field, FieldValue, FieldView,
    Observation,
};
use crate::record::clone_texts;
use crate::resolver::{
    AAAARecord, ARecord, MxRecord, NsRecord, Resolution, ResolutionView, ResolveError, TxtRecord,
};
use crate::workers::report::{single_report, WorkerReport, WorkerReportView};

verus! {

/// Name and values of an observation.
pub type Noted = (Seq<char>, Seq<(Seq<char>, FieldView)>);

/// What every observation of a DNS check starts with.
pub open spec fn dns_head(query: Seq<char>, server: Seq<char>) -> Seq<(Seq<char>, FieldView)> {
    seq![("query"@, FieldView::Text(query)), ("server"@, FieldView::Text(server))]
}

/// What is reported of an address record.
pub open spec fn a_noted(query: Seq<char>, server: Seq<char>, r: ARecord) -> Noted {
    (
        "dns_a_record"@,
        dns_head(query, server).push(("address"@, FieldView::Ip(IpAddr::V4(r.addr)))).push(
            ("ttl"@, FieldView::Number(r.ttl as u64)),
        ),
    )
}

/// What is reported of an IPv6 address record.
pub open spec fn aaaa_noted(query: Seq<char>, server: Seq<char>, r: AAAARecord) -> Noted {
    (
        "dns_aaaa_record"@,
        dns_head(query, server).push(("address"@, FieldView::Ip(IpAddr::V6(r.addr)))).push(
            ("ttl"@, FieldView::Number(r.ttl as u64)),
        ),
    )
}

/// What is reported of a mail exchange record.
pub open spec fn mx_noted(query: Seq<char>, server: Seq<char>, r: (u16, Seq<char>, u32)) -> Noted {
    (
        "dns_mx_record"@,
        dns_head(query, server).push(("preference"@, FieldView::Number(r.0 as u64))).push(
            ("exchange"@, FieldView::Text(r.1)),
        ).push(("ttl"@, FieldView::Number(r.2 as u64))),
    )
}

/// What is reported of a name server record.
pub open spec fn ns_noted(query: Seq<char>, server: Seq<char>, r: (Seq<char>, u32)) -> Noted {
    (
        "dns_ns_record"@,
        dns_head(query, server).push(("host"@, FieldView::Text(r.0))).push(
            ("ttl"@, FieldView::Number(r.1 as u64)),
        ),
    )
}

/// What is reported of a text record.
pub open spec fn txt_noted(query: Seq<char>, server: Seq<char>, r: (Seq<Seq<char>>, u32)) -> Noted {
    (
        "dns_txt_record"@,
        dns_head(query, server).push(("data"@, FieldView::Texts(r.0))).push(
            ("ttl"@, FieldView::Number(r.1 as u64)),
        ),
    )
}

/// What is reported of a resolution: one observation for each record, by kind.
pub open spec fn noted(query: Seq<char>, server: Seq<char>, r: ResolutionView) -> Seq<Noted> {
    r.a_records.map_values(|x: ARecord| a_noted(query, server, x)) + r.aaaa_records.map_values(
        |x: AAAARecord| aaaa_noted(query, server, x),
    ) + r.mx_records.map_values(|x: (u16, Seq<char>, u32)| mx_noted(query, server, x))
        + r.ns_records.map_values(|x: (Seq<char>, u32)| ns_noted(query, server, x))
        + r.txt_records.map_values(|x: (Seq<Seq<char>>, u32)| txt_noted(query, server, x))
}

/// The observations are those that `list` describes.
pub open spec fn are_noted(observations: Seq<Observation>, list: Seq<Noted>) -> bool {
    &&& observations.len() == list.len()
    &&& forall|i: int|
        0 <= i < list.len() ==> (#[trigger] observations[i]).is_record(list[i].0, list[i].1)
}

fn head(query: &str, server: &str) -> (r: Vec<Field>)
    ensures
        field_views(r@) == dns_head(query@, server@),
{
    let mut fields: Vec<Field> = Vec::new();
    push_field(&mut fields, text_field("query", query));
    push_field(&mut fields, text_field("server", server));
    assert(field_views(fields@) =~= dns_head(query@, server@));
    fields
}

/// The observations of a resolution.
fn dns_observations(query: &str, server: &str, resolution: &Resolution) -> (r: Vec<Observation>)
    ensures
        are_noted(r@, noted(query@, server@, resolution@)),
{
    let ghost v = resolution@;
    let ghost q = query@;
    let ghost s = server@;
    let ghost all = noted(q, s, v);
    let ghost na = v.a_records.len() as int;
    let ghost nb = na + v.aaaa_records.len();
    let ghost nc = nb + v.mx_records.len();
    let ghost nd = nc + v.ns_records.len();
    let mut list: Vec<Observation> = Vec::new();
    let mut i: usize = 0;
    while i < resolution.a_records.len()
        invariant
            i <= resolution.a_records.len(),
            q == query@,
            s == server@,
            v == resolution@,
            all == noted(q, s, v),
            na == v.a_records.len(),
            are_noted(list@, all.take(i as int)),
        decreases resolution.a_records.len() - i,
    {
        let found: ARecord = resolution.a_records[i];
        let mut fields: Vec<Field> = head(query, server);
        push_field(
            &mut fields,
            Field { key: "address", value: FieldValue::Ip(IpAddr::V4(found.addr)) },
        );
        push_field(&mut fields, number_field("ttl", found.ttl as u64));
        assert(all[i as int] == a_noted(q, s, v.a_records[i as int]));
        list.push(record("dns_a_record", fields));
        i = i + 1;
    }
    i = 0;
    while i < resolution.aaaa_records.len()
        invariant
            i <= resolution.aaaa_records.len(),
            q == query@,
            s == server@,
            v == resolution@,
            all == noted(q, s, v),
            na == v.a_records.len(),
            nb == na + v.aaaa_records.len(),
            are_noted(list@, all.take(na + i)),
        decreases resolution.aaaa_records.len() - i,
    {
        let found: AAAARecord = resolution.aaaa_records[i];
        let mut fields: Vec<Field> = head(query, server);
        push_field(
            &mut fields,
            Field { key: "address", value: FieldValue::Ip(IpAddr::V6(found.addr)) },
        );
        push_field(&mut fields, number_field("ttl", found.ttl as u64));
        assert(all[na + i] == aaaa_noted(q, s, v.aaaa_records[i as int]));
        list.push(record("dns_aaaa_record", fields));
        i = i + 1;
    }
    i = 0;
    while i < resolution.mx_records.len()
        invariant
            i <= resolution.mx_records.len(),
            q == query@,
            s == server@,
            v == resolution@,
            all == noted(q, s, v),
            nb == v.a_records.len() + v.aaaa_records.len(),
            nc == nb + v.mx_records.len(),
            are_noted(list@, all.take(nb + i)),
        decreases resolution.mx_records.len() - i,
    {
        let found: &MxRecord = &resolution.mx_records[i];
        let mut fields: Vec<Field> = head(query, server);
        push_field(&mut fields, number_field("preference", found.preference as u64));
        push_field(&mut fields, text_field("exchange", found.exchange.as_str()));
        push_field(&mut fields, number_field("ttl", found.ttl as u64));
        assert(all[nb + i] == mx_noted(q, s, v.mx_records[i as int]));
        list.push(record("dns_mx_record", fields));
        i = i + 1;
    }
    i = 0;
    while i < resolution.ns_records.len()
        invariant
            i <= resolution.ns_records.len(),
            q == query@,
            s == server@,
            v == resolution@,
            all == noted(q, s, v),
            nc == v.a_records.len() + v.aaaa_records.len() + v.mx_records.len(),
            nd == nc + v.ns_records.len(),
            are_noted(list@, all.take(nc + i)),
        decreases resolution.ns_records.len() - i,
    {
        let found: &NsRecord = &resolution.ns_records[i];
        let mut fields: Vec<Field> = head(query, server);
        push_field(&mut fields, text_field("host", found.host.as_str()));
        push_field(&mut fields, number_field("ttl", found.ttl as u64));
        assert(all[nc + i] == ns_noted(q, s, v.ns_records[i as int]));
        list.push(record("dns_ns_record", fields));
        i = i + 1;
    }
    i = 0;
    while i < resolution.txt_records.len()
        invariant
            i <= resolution.txt_records.len(),
            q == query@,
            s == server@,
            v == resolution@,
            all == noted(q, s, v),
            nd == v.a_records.len() + v.aaaa_records.len() + v.mx_records.len()
                + v.ns_records.len(),
            are_noted(list@, all.take(nd + i)),
        decreases resolution.txt_records.len() - i,
    {
        let found: &TxtRecord = &resolution.txt_records[i];
        let mut fields: Vec<Field> = head(query, server);
        push_field(
            &mut fields,
            Field { key: "data", value: FieldValue::Texts(clone_texts(&found.data)) },
        );
        push_field(&mut fields, number_field("ttl", found.ttl as u64));
        assert(all[nd + i] == txt_noted(q, s, v.txt_records[i as int]));
        list.push(record("dns_txt_record", fields));
        i = i + 1;
    }
    assert(all.take(nd + i) =~= all);
    list
}

/// Reports a DNS check: each record that was found, or why none was. A check that was
/// cancelled meanwhile is reported without observations.
pub fn dns_report(
    lease_id: u64,
    query: &str,
    server: &str,
    result: &Result<Resolution, ResolveError>,
    cancelled: bool,
) -> (r: WorkerReport)
    ensures
        r@.is_single(lease_id, cancelled),
        are_noted(
            r@.observations(cancelled),
            if cancelled {
                Seq::empty()
            } else {
                match result {
                    Ok(resolution) => noted(query@, server@, resolution@),
                    Err(e) => seq![
                        (
                            "dns_error"@,
                            dns_head(query@, server@).push(("error"@, FieldView::Text(e.text()))),
                        ),
                    ],
                }
            },
        ),
{
    if cancelled {
        return single_report(lease_id, true, Vec::new());
    }
    let observations: Vec<Observation> = match result {
        Ok(resolution) => dns_observations(query, server, resolution),
        Err(e) => {
            let mut fields: Vec<Field> = head(query, server);
            push_field(&mut fields, text_field("error", e.message().as_str()));
            let mut list: Vec<Observation> = Vec::new();
            list.push(record("dns_error", fields));
            list
        },
    };
    single_report(lease_id, false, observations)
}

/// What a worker does with a DNS lease.
pub enum DnsStart {
    /// The lease is over.
    Report(WorkerReport),
    /// The name is to be resolved.
    Resolve { lease_id: u64, query: String, server: Option<String> },
}

/// Carries out DNS leases.
#[derive(Debug, Clone, Copy, Default)]
pub struct DnsWorker;

impl DnsWorker {
    /// Starts on a lease. A lease that was cancelled is reported at once, and one that asks for
    /// something else is completed without observations.
    pub fn begin(lease: Lease, cancelled: bool) -> (r: DnsStart)
        ensures
            if cancelled {
                r is Report && r->Report_0@ == WorkerReportView::only_cancelled(lease.lease_id)
            } else {
                match lease.spec {
                    TaskSpec::Dns { query, server } => r == (DnsStart::Resolve {
                        lease_id: lease.lease_id,
                        query,
                        server,
                    }),
                    _ => r is Report && r->Report_0@ == WorkerReportView::only_completed(
                        lease.lease_id,
                    ),
                }
            },
    {
        if cancelled {
            return DnsStart::Report(WorkerReport::cancelled(lease.lease_id));
        }
        match lease.spec {
            TaskSpec::Dns { query, server } => DnsStart::Resolve {
                lease_id: lease.lease_id,
                query,
                server,
            },
            _ => DnsStart::Report(WorkerReport::completed(lease.lease_id)),
        }
    }
}

/// Carries out HTTP leases.
#[derive(Debug, Clone, Copy, Default)]
pub struct HttpWorker;

impl HttpWorker {
    /// Carries out an HTTP lease: it is completed, unless it was cancelled.
    pub fn handle(lease_id: u64, cancelled: bool) -> (r: WorkerReport)
        ensures
            r@ == (if cancelled {
                WorkerReportView::only_cancelled(lease_id)
            } else {
                WorkerReportView::only_completed(lease_id)
            }),
    {
        if cancelled {
            WorkerReport::cancelled(lease_id)
        } else {
            WorkerReport::completed(lease_id)
        }
    }
}

/// Every record that a resolution found is noted, the records of each kind in their order, with
/// what was asked, whom, what the record holds and for how long it lives.
pub proof fn law_every_record_is_noted(
    query: Seq<char>,
    server: Seq<char>,
    r: ResolutionView,
    i: int,
)
    requires
        0 <= i,
    ensures
        ({
            let all = noted(query, server, r);
            let a = r.a_records.len() as int;
            let aaaa = a + r.aaaa_records.len();
            let mx = aaaa + r.mx_records.len();
            let ns = mx + r.ns_records.len();
            let asked = ("query"@, FieldView::Text(query));
            let answered = ("server"@, FieldView::Text(server));
            &&& all.len() == ns + r.txt_records.len()
            &&& i < r.a_records.len() ==> all[i].0 == "dns_a_record"@ && all[i].1 == seq![
                asked,
                answered,
                ("address"@, FieldView::Ip(IpAddr::V4(r.a_records[i].addr))),
                ("ttl"@, FieldView::Number(r.a_records[i].ttl as u64)),
            ]
            &&& i < r.aaaa_records.len() ==> all[a + i].0 == "dns_aaaa_record"@ && all[a + i].1
                == seq![
                asked,
                answered,
                ("address"@, FieldView::Ip(IpAddr::V6(r.aaaa_records[i].addr))),
                ("ttl"@, FieldView::Number(r.aaaa_records[i].ttl as u64)),
            ]
            &&& i < r.mx_records.len() ==> all[aaaa + i].0 == "dns_mx_record"@ && all[aaaa + i].1
                == seq![
                asked,
                answered,
                ("preference"@, FieldView::Number(r.mx_records[i].0 as u64)),
                ("exchange"@, FieldView::Text(r.mx_records[i].1)),
                ("ttl"@, FieldView::Number(r.mx_records[i].2 as u64)),
            ]
            &&& i < r.ns_records.len() ==> all[mx + i].0 == "dns_ns_record"@ && all[mx + i].1
                == seq![
                asked,
                answered,
                ("host"@, FieldView::Text(r.ns_records[i].0)),
                ("ttl"@, FieldView::Number(r.ns_records[i].1 as u64)),
            ]
            &&& i < r.txt_records.len() ==> all[ns + i].0 == "dns_txt_record"@ && all[ns + i].1
                == seq![
                asked,
                answered,
                ("data"@, FieldView::Texts(r.txt_records[i].0)),
                ("ttl"@, FieldView::Number(r.txt_records[i].1 as u64)),
            ]
        }),
{
}

} // verus!
