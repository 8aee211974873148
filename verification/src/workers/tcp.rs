//! TCP checks: in which order addresses are tried, and what is made of the attempts.

use vstd::multiset::Multiset;
use vstd::prelude::*;
use vstd::string::*;

use crate::control_plane::{Lease, TaskSpec, TcpSpec};
use crate::net::SocketAddr;
use crate::observation::{
    bool_field, field_views, number_field, optional_address_field, optional_errno_field,
    optional_millis_field, optional_text_field, push_field, record, text_field, Field, FieldView,
    Observation,
};
use crate::text::concat2;
use crate::workers::report::{single_report, WorkerReport};
use crate::workers::trace::has_address;

verus! {

/// Time between the starts of two attempts, in nanoseconds.
pub const HAPPY_EYEBALLS_NANOS: u128 = 250_000_000;

/// When attempt `index` starts, in nanoseconds after the first one. The index counts modulo 2^32.
pub fn delay_for(index: usize) -> (r: u128)
    ensures
        r == HAPPY_EYEBALLS_NANOS * (index as int % 0x1_0000_0000),
{
    HAPPY_EYEBALLS_NANOS * ((index as u64 % 0x1_0000_0000) as u128)
}

/// The addresses of one family, in their order.
pub open spec fn family(s: Seq<SocketAddr>, v6: bool) -> Seq<SocketAddr> {
    s.filter(|a: SocketAddr| (a.ip is V6) == v6)
}

/// `a` and `b` taken in turn, starting with `a`; once one is used up, the rest of the other.
pub open spec fn alternate(a: Seq<SocketAddr>, b: Seq<SocketAddr>) -> Seq<SocketAddr>
    decreases a.len() + b.len(),
{
    if a.len() == 0 {
        b
    } else if b.len() == 0 {
        a
    } else {
        seq![a[0], b[0]] + alternate(a.skip(1), b.skip(1))
    }
}

/// Addresses of both families in turn, IPv6 first.
pub open spec fn ordered(s: Seq<SocketAddr>) -> Seq<SocketAddr> {
    alternate(family(s, true), family(s, false))
}

/// `s` without the values that occurred before.
pub open spec fn distinct(s: Seq<SocketAddr>) -> Seq<SocketAddr>
    decreases s.len(),
{
    if s.len() == 0 {
        s
    } else {
        let init = distinct(s.drop_last());
        if init.contains(s.last()) {
            init
        } else {
            init.push(s.last())
        }
    }
}

fn split_family(addresses: &Vec<SocketAddr>, v6: bool) -> (r: Vec<SocketAddr>)
    ensures
        r@ == family(addresses@, v6),
{
    let mut r: Vec<SocketAddr> = Vec::new();
    let mut i: usize = 0;
    let ghost pred = |a: SocketAddr| (a.ip is V6) == v6;
    proof {
        reveal(Seq::filter);
        assert(addresses@.take(0).filter(pred) =~= Seq::empty());
    }
    while i < addresses.len()
        invariant
            i <= addresses.len(),
            pred == (|a: SocketAddr| (a.ip is V6) == v6),
            r@ == addresses@.take(i as int).filter(pred),
        decreases addresses.len() - i,
    {
        proof {
            reveal(Seq::filter);
            assert(addresses@.take(i + 1).drop_last() =~= addresses@.take(i as int));
            assert(addresses@.take(i + 1).last() == addresses@[i as int]);
        }
        let address: SocketAddr = addresses[i];
        if address.is_ipv6() == v6 {
            r.push(address);
        }
        i = i + 1;
    }
    assert(addresses@.take(i as int) =~= addresses@);
    r
}

/// Addresses of both families in turn, IPv6 first.
pub fn order_addresses(addresses: Vec<SocketAddr>) -> (r: Vec<SocketAddr>)
    ensures
        r@ == ordered(addresses@),
{
    let v6: Vec<SocketAddr> = split_family(&addresses, true);
    let v4: Vec<SocketAddr> = split_family(&addresses, false);
    let mut r: Vec<SocketAddr> = Vec::new();
    let mut i: usize = 0;
    assert(v6@.skip(0) =~= v6@);
    assert(v4@.skip(0) =~= v4@);
    assert(r@ + alternate(v6@, v4@) =~= alternate(v6@, v4@));
    while i < v6.len() || i < v4.len()
        invariant
            i <= v6.len() || i <= v4.len(),
            alternate(v6@, v4@) == r@ + alternate(
                v6@.skip(if i < v6.len() { i as int } else { v6.len() as int }),
                v4@.skip(if i < v4.len() { i as int } else { v4.len() as int }),
            ),
        decreases v6.len() + v4.len() - i,
    {
        let ghost a = v6@.skip(if i < v6.len() { i as int } else { v6.len() as int });
        let ghost b = v4@.skip(if i < v4.len() { i as int } else { v4.len() as int });
        let ghost before = r@;
        if i < v6.len() {
            r.push(v6[i]);
        }
        if i < v4.len() {
            r.push(v4[i]);
        }
        i = i + 1;
        proof {
            let a2 = v6@.skip(if i < v6.len() { i as int } else { v6.len() as int });
            let b2 = v4@.skip(if i < v4.len() { i as int } else { v4.len() as int });
            if a.len() > 0 {
                assert(a2 =~= a.skip(1));
            } else {
                assert(a2 =~= a);
            }
            if b.len() > 0 {
                assert(b2 =~= b.skip(1));
            } else {
                assert(b2 =~= b);
            }
            if a.len() > 0 && b.len() > 0 {
                assert(before + alternate(a, b) =~= r@ + alternate(a2, b2));
            } else if a.len() > 0 {
                assert(alternate(a, b) =~= a);
                assert(alternate(a2, b2) =~= a2);
                assert(before + a =~= r@ + a2);
            } else {
                assert(before + b =~= r@ + b2);
            }
        }
    }
    assert(r@ + alternate(Seq::empty(), Seq::empty()) =~= r@);
    assert(v6@.skip(v6.len() as int) =~= Seq::empty());
    assert(v4@.skip(v4.len() as int) =~= Seq::empty());
    r
}

/// `addresses` without the ones that occurred before.
fn without_repeats(addresses: &Vec<SocketAddr>) -> (r: Vec<SocketAddr>)
    ensures
        r@ == distinct(addresses@),
{
    let mut r: Vec<SocketAddr> = Vec::new();
    let mut i: usize = 0;
    assert(addresses@.take(0) =~= Seq::empty());
    while i < addresses.len()
        invariant
            i <= addresses.len(),
            r@ == distinct(addresses@.take(i as int)),
        decreases addresses.len() - i,
    {
        let address: SocketAddr = addresses[i];
        let mut known: bool = false;
        let mut k: usize = 0;
        while k < r.len()
            invariant
                k <= r.len(),
                known == exists|j: int| 0 <= j < k && r@[j] == address,
            decreases r.len() - k,
        {
            if r[k] == address {
                known = true;
            }
            k = k + 1;
        }
        assert(known == r@.contains(address));
        assert(addresses@.take(i + 1).drop_last() =~= addresses@.take(i as int));
        if !known {
            r.push(address);
        }
        i = i + 1;
    }
    assert(addresses@.take(i as int) =~= addresses@);
    r
}

proof fn lemma_families(s: Seq<SocketAddr>)
    ensures
        family(s, true).to_multiset().add(family(s, false).to_multiset()) == s.to_multiset(),
    decreases s.len(),
{
    reveal(Seq::filter);
    if s.len() == 0 {
        broadcast use vstd::seq_lib::group_to_multiset_ensures;

        assert(s.to_multiset() =~= Multiset::empty());
        assert(family(s, true) == s && family(s, false) == s);
    } else {
        let init = s.drop_last();
        lemma_families(init);
        vstd::seq_lib::to_multiset_build(init, s.last());
        assert(s =~= init.push(s.last()));
        let v6 = s.last().ip is V6;
        vstd::seq_lib::to_multiset_build(family(init, v6), s.last());
        assert(family(s, v6) == family(init, v6).push(s.last()));
        assert(family(s, !v6) == family(init, !v6));
        assert(family(s, true).to_multiset().add(family(s, false).to_multiset())
            =~= init.to_multiset().insert(s.last()));
    }
}

proof fn lemma_family_concat(x: Seq<SocketAddr>, y: Seq<SocketAddr>, v6: bool)
    ensures
        family(x + y, v6) == family(x, v6) + family(y, v6),
    decreases y.len(),
{
    reveal(Seq::filter);
    if y.len() == 0 {
        assert(x + y =~= x);
        assert(family(x, v6) + family(y, v6) =~= family(x, v6));
    } else {
        lemma_family_concat(x, y.drop_last(), v6);
        assert((x + y).drop_last() =~= x + y.drop_last());
        assert((x + y).last() == y.last());
        assert(family(x + y, v6) =~= family(x, v6) + family(y, v6));
    }
}

/// All of `s` belong to one family.
pub open spec fn all_of(s: Seq<SocketAddr>, v6: bool) -> bool {
    forall|i: int| 0 <= i < s.len() ==> ((#[trigger] s[i]).ip is V6) == v6
}

proof fn lemma_family_of_own(s: Seq<SocketAddr>, v6: bool)
    requires
        all_of(s, v6),
    ensures
        family(s, v6) == s,
        family(s, !v6) == Seq::<SocketAddr>::empty(),
    decreases s.len(),
{
    reveal(Seq::filter);
    if s.len() > 0 {
        assert forall|i: int| 0 <= i < s.drop_last().len() implies ((#[trigger] s.drop_last()[i]).ip
            is V6) == v6 by {
            assert(s.drop_last()[i] == s[i]);
        }
        lemma_family_of_own(s.drop_last(), v6);
        assert(s.last() == s[s.len() - 1]);
        assert(family(s, v6) =~= s);
        assert(family(s, !v6) =~= Seq::empty());
    } else {
        assert(family(s, v6) =~= s);
        assert(family(s, !v6) =~= Seq::empty());
    }
}

proof fn lemma_family_all(s: Seq<SocketAddr>, v6: bool)
    ensures
        all_of(family(s, v6), v6),
    decreases s.len(),
{
    reveal(Seq::filter);
    if s.len() > 0 {
        lemma_family_all(s.drop_last(), v6);
    }
}

proof fn lemma_all_of_skip(s: Seq<SocketAddr>, v6: bool)
    requires
        all_of(s, v6),
        s.len() > 0,
    ensures
        all_of(s.skip(1), v6),
        (s[0].ip is V6) == v6,
{
    let rest = s.skip(1);
    assert forall|i: int| 0 <= i < rest.len() implies ((#[trigger] rest[i]).ip is V6) == v6 by {
        assert(rest[i] == s[i + 1]);
    }
}

proof fn lemma_family_pair(x: SocketAddr, y: SocketAddr)
    requires
        x.ip is V6,
        !(y.ip is V6),
    ensures
        family(seq![x, y], true) == seq![x],
        family(seq![x, y], false) == seq![y],
{
    let pair = seq![x, y];
    reveal(Seq::filter);
    assert(pair.drop_last() =~= seq![x]);
    assert(seq![x].drop_last() =~= Seq::empty());
    assert(family(Seq::empty(), true) =~= Seq::empty());
    assert(family(Seq::empty(), false) =~= Seq::empty());
    assert(family(seq![x], true) =~= seq![x]);
    assert(family(seq![x], false) =~= Seq::empty());
    assert(family(pair, true) =~= seq![x]);
    assert(family(pair, false) =~= seq![y]);
}

proof fn lemma_alternate_families(a: Seq<SocketAddr>, b: Seq<SocketAddr>)
    requires
        all_of(a, true),
        all_of(b, false),
    ensures
        family(alternate(a, b), true) == a,
        family(alternate(a, b), false) == b,
    decreases a.len() + b.len(),
{
    if a.len() == 0 {
        lemma_family_of_own(b, false);
        assert(a =~= Seq::empty());
    } else if b.len() == 0 {
        lemma_family_of_own(a, true);
        assert(b =~= Seq::empty());
    } else {
        let rest = alternate(a.skip(1), b.skip(1));
        lemma_all_of_skip(a, true);
        lemma_all_of_skip(b, false);
        lemma_alternate_families(a.skip(1), b.skip(1));
        lemma_family_pair(a[0], b[0]);
        lemma_family_concat(seq![a[0], b[0]], rest, true);
        lemma_family_concat(seq![a[0], b[0]], rest, false);
        assert(seq![a[0]] + a.skip(1) =~= a);
        assert(seq![b[0]] + b.skip(1) =~= b);
    }
}

/// Ordering keeps the addresses of each family in their order.
pub proof fn law_ordering_keeps_families(s: Seq<SocketAddr>, v6: bool)
    ensures
        family(ordered(s), v6) == family(s, v6),
{
    lemma_family_all(s, true);
    lemma_family_all(s, false);
    lemma_alternate_families(family(s, true), family(s, false));
}

/// Ordering neither drops nor adds an address.
pub proof fn law_ordering_is_a_permutation(s: Seq<SocketAddr>)
    ensures
        ordered(s).to_multiset() == s.to_multiset(),
{
    law_ordering_keeps_families(s, true);
    law_ordering_keeps_families(s, false);
    lemma_families(ordered(s));
    lemma_families(s);
}

/// IPv6 goes first, if there is any.
pub proof fn law_ipv6_goes_first(s: Seq<SocketAddr>)
    requires
        family(s, true).len() > 0,
    ensures
        ordered(s).len() > 0,
        ordered(s)[0] == family(s, true)[0],
{
}

/// No address is tried twice, and none is left out.
pub proof fn law_distinct(s: Seq<SocketAddr>)
    ensures
        distinct(s).no_duplicates(),
        forall|a: SocketAddr| distinct(s).contains(a) <==> s.contains(a),
    decreases s.len(),
{
    if s.len() > 0 {
        let init = s.drop_last();
        law_distinct(init);
        assert forall|a: SocketAddr| distinct(s).contains(a) <==> s.contains(a) by {
            assert(s =~= init.push(s.last()));
            if s.contains(a) {
                let i = choose|i: int| 0 <= i < s.len() && s[i] == a;
                if i < init.len() {
                    assert(init[i] == a);
                    assert(init.contains(a));
                    let k = choose|k: int| 0 <= k < distinct(init).len() && distinct(init)[k] == a;
                    assert(distinct(s)[k] == a);
                } else if !distinct(init).contains(a) {
                    assert(distinct(s)[distinct(init).len() as int] == a);
                }
            }
            if distinct(s).contains(a) {
                let k = choose|k: int| 0 <= k < distinct(s).len() && distinct(s)[k] == a;
                if k < distinct(init).len() {
                    assert(distinct(init)[k] == a);
                    assert(distinct(init).contains(a));
                    assert(init.contains(a));
                    let i = choose|i: int| 0 <= i < init.len() && init[i] == a;
                    assert(s[i] == a);
                } else {
                    assert(s[s.len() - 1] == a);
                }
            }
        }
    }
}

/// What came of looking a host up in a second way, on a thread of its own.
pub enum BlockingLookup {
    Found(Vec<SocketAddr>),
    Failed(String),
    /// The thread did not end properly.
    Aborted(String),
}

/// The addresses that two lookups of a host found, in the order in which they are tried.
pub open spec fn targets_of(
    host: Seq<char>,
    first: Result<Vec<SocketAddr>, String>,
    second: BlockingLookup,
) -> Result<Seq<SocketAddr>, Seq<char>> {
    let found = (match first {
        Ok(list) => list@,
        Err(_) => Seq::empty(),
    }) + (match second {
        BlockingLookup::Found(list) => list@,
        _ => Seq::empty(),
    });
    if found.len() > 0 {
        Ok(ordered(distinct(found)))
    } else {
        match (first, second) {
            (Err(e), _) => Err("async resolver failed: "@ + e@),
            (Ok(_), BlockingLookup::Failed(e)) => Err("std resolver failed: "@ + e@),
            (Ok(_), BlockingLookup::Aborted(e)) => Err("blocking resolver join error: "@ + e@),
            (Ok(_), BlockingLookup::Found(_)) => Err(
                "no socket addresses resolved for host "@ + host,
            ),
        }
    }
}

/// Joins what two lookups of a host found. If neither found an address, the first of their
/// errors is returned.
pub fn resolve_targets(
    host: &str,
    first: Result<Vec<SocketAddr>, String>,
    second: BlockingLookup,
) -> (r: Result<Vec<SocketAddr>, String>)
    ensures
        match targets_of(host@, first, second) {
            Ok(list) => r is Ok && r->Ok_0@ == list,
            Err(e) => r is Err && r->Err_0@ == e,
        },
{
    let mut addresses: Vec<SocketAddr> = Vec::new();
    let mut error: Option<String> = None;
    match first {
        Ok(list) => {
            addresses = list;
        },
        Err(e) => {
            error = Some(concat2("async resolver failed: ", e.as_str()));
        },
    }
    let ghost start = addresses@;
    match second {
        BlockingLookup::Found(list) => {
            let mut list: Vec<SocketAddr> = list;
            addresses.append(&mut list);
        },
        BlockingLookup::Failed(e) => {
            if error.is_none() {
                error = Some(concat2("std resolver failed: ", e.as_str()));
            }
        },
        BlockingLookup::Aborted(e) => {
            if error.is_none() {
                error = Some(concat2("blocking resolver join error: ", e.as_str()));
            }
        },
    }
    assert(start + Seq::<SocketAddr>::empty() =~= start);
    if addresses.len() == 0 {
        return match error {
            Some(e) => Err(e),
            None => Err(concat2("no socket addresses resolved for host ", host)),
        };
    }
    Ok(order_addresses(without_repeats(&addresses)))
}

/// An error of a connection.
#[derive(Debug, Clone)]
pub struct ConnectError {
    pub message: String,
    pub errno: Option<i32>,
}

/// One attempt to connect and what came of it.
#[derive(Debug, Clone)]
pub struct TcpObservation {
    pub attempt: usize,
    pub address: SocketAddr,
    pub success: bool,
    /// Duration in nanoseconds.
    pub elapsed: u128,
    pub error: Option<String>,
    pub errno: Option<i32>,
    pub cancelled: bool,
    pub reason: Option<String>,
}

/// The text, if there is one.
pub open spec fn text_view(text: Option<String>) -> FieldView {
    match text {
        Some(t) => FieldView::Text(t@),
        None => FieldView::Null,
    }
}

/// The error number, if there is one.
pub open spec fn errno_view(errno: Option<i32>) -> FieldView {
    match errno {
        Some(n) => FieldView::Errno(n),
        None => FieldView::Null,
    }
}

/// The address of an attempt, if there is one.
pub open spec fn context_address(context: Option<TcpObservation>) -> FieldView {
    match context {
        Some(ctx) => FieldView::Address(ctx.address),
        None => FieldView::Null,
    }
}

/// The duration of an attempt, if there is one.
pub open spec fn context_time(context: Option<TcpObservation>) -> FieldView {
    match context {
        Some(ctx) => FieldView::Millis(ctx.elapsed),
        None => FieldView::Null,
    }
}

impl TcpObservation {
    /// What is reported of an attempt.
    pub open spec fn fields(&self) -> Seq<(Seq<char>, FieldView)> {
        seq![
            ("attempt"@, FieldView::Number(self.attempt as u64)),
            ("success"@, FieldView::Bool(self.success)),
            ("address"@, FieldView::Address(self.address)),
            ("rtt_ms"@, FieldView::Millis(self.elapsed)),
            ("error"@, text_view(self.error)),
            ("errno"@, errno_view(self.errno)),
            ("cancelled"@, FieldView::Bool(self.cancelled)),
            ("reason"@, text_view(self.reason)),
        ]
    }

    /// The summary of a check that succeeded with this attempt.
    pub open spec fn summary(&self) -> Seq<(Seq<char>, FieldView)> {
        seq![
            ("success"@, FieldView::Bool(true)),
            ("address"@, FieldView::Address(self.address)),
            ("rtt_ms"@, FieldView::Millis(self.elapsed)),
            ("errno"@, errno_view(self.errno)),
        ]
    }

    /// The summary of a check that failed.
    pub open spec fn failed_summary(error: ConnectError, context: Option<TcpObservation>) -> Seq<
        (Seq<char>, FieldView),
    > {
        seq![
            ("success"@, FieldView::Bool(false)),
            ("address"@, context_address(context)),
            ("rtt_ms"@, context_time(context)),
            ("error"@, FieldView::Text(error.message@)),
            (
                "errno"@,
                errno_view(
                    if context is Some && context->0.errno is Some {
                        context->0.errno
                    } else {
                        error.errno
                    },
                ),
            ),
        ]
    }

    /// The summary of a check that was cancelled.
    pub open spec fn cancelled_summary(context: Option<TcpObservation>) -> Seq<
        (Seq<char>, FieldView),
    > {
        seq![
            ("success"@, FieldView::Bool(false)),
            ("cancelled"@, FieldView::Bool(true)),
            ("address"@, context_address(context)),
            ("rtt_ms"@, context_time(context)),
            (
                "errno"@,
                match context {
                    Some(ctx) => errno_view(ctx.errno),
                    None => FieldView::Null,
                },
            ),
            (
                "reason"@,
                match context {
                    Some(ctx) => text_view(ctx.reason),
                    None => FieldView::Null,
                },
            ),
        ]
    }

    fn copy(&self) -> (r: TcpObservation)
        ensures
            r == *self,
    {
        TcpObservation {
            attempt: self.attempt,
            address: self.address,
            success: self.success,
            elapsed: self.elapsed,
            error: match &self.error {
                Some(e) => Some(e.clone()),
                None => None,
            },
            errno: self.errno,
            cancelled: self.cancelled,
            reason: match &self.reason {
                Some(e) => Some(e.clone()),
                None => None,
            },
        }
    }

    pub fn into_observation(self) -> (r: Observation)
        ensures
            r.is_record("tcp_attempt"@, self.fields()),
    {
        let mut fields: Vec<Field> = Vec::new();
        push_field(&mut fields, number_field("attempt", self.attempt as u64));
        push_field(&mut fields, bool_field("success", self.success));
        push_field(&mut fields, optional_address_field("address", Some(self.address)));
        push_field(&mut fields, optional_millis_field("rtt_ms", Some(self.elapsed)));
        push_field(&mut fields, optional_text_field("error", &self.error));
        push_field(&mut fields, optional_errno_field("errno", self.errno));
        push_field(&mut fields, bool_field("cancelled", self.cancelled));
        push_field(&mut fields, optional_text_field("reason", &self.reason));
        assert(field_views(fields@) =~= self.fields());
        record("tcp_attempt", fields)
    }

    pub fn into_summary(self) -> (r: Observation)
        ensures
            r.is_record("tcp_summary"@, self.summary()),
    {
        let mut fields: Vec<Field> = Vec::new();
        push_field(&mut fields, bool_field("success", true));
        push_field(&mut fields, optional_address_field("address", Some(self.address)));
        push_field(&mut fields, optional_millis_field("rtt_ms", Some(self.elapsed)));
        push_field(&mut fields, optional_errno_field("errno", self.errno));
        assert(field_views(fields@) =~= self.summary());
        record("tcp_summary", fields)
    }

    pub fn failure_summary(error: ConnectError, context: Option<TcpObservation>) -> (r: Observation)
        ensures
            r.is_record("tcp_summary"@, TcpObservation::failed_summary(error, context)),
    {
        let mut address: Option<SocketAddr> = None;
        let mut elapsed: Option<u128> = None;
        let mut errno: Option<i32> = error.errno;
        if let Some(ctx) = &context {
            address = Some(ctx.address);
            elapsed = Some(ctx.elapsed);
            if let Some(n) = ctx.errno {
                errno = Some(n);
            }
        }
        let mut fields: Vec<Field> = Vec::new();
        push_field(&mut fields, bool_field("success", false));
        push_field(&mut fields, optional_address_field("address", address));
        push_field(&mut fields, optional_millis_field("rtt_ms", elapsed));
        push_field(&mut fields, text_field("error", error.message.as_str()));
        push_field(&mut fields, optional_errno_field("errno", errno));
        assert(field_views(fields@) =~= TcpObservation::failed_summary(error, context));
        record("tcp_summary", fields)
    }

    pub fn cancellation_summary(context: Option<TcpObservation>) -> (r: Observation)
        ensures
            r.is_record("tcp_summary"@, TcpObservation::cancelled_summary(context)),
    {
        let mut address: Option<SocketAddr> = None;
        let mut elapsed: Option<u128> = None;
        let mut errno: Option<i32> = None;
        let mut reason: Option<String> = None;
        if let Some(ctx) = &context {
            address = Some(ctx.address);
            elapsed = Some(ctx.elapsed);
            errno = ctx.errno;
            reason = match &ctx.reason {
                Some(t) => Some(t.clone()),
                None => None,
            };
        }
        let mut fields: Vec<Field> = Vec::new();
        push_field(&mut fields, bool_field("success", false));
        push_field(&mut fields, bool_field("cancelled", true));
        push_field(&mut fields, optional_address_field("address", address));
        push_field(&mut fields, optional_millis_field("rtt_ms", elapsed));
        push_field(&mut fields, optional_errno_field("errno", errno));
        push_field(&mut fields, optional_text_field("reason", &reason));
        assert(field_views(fields@) =~= TcpObservation::cancelled_summary(context));
        record("tcp_summary", fields)
    }
}

/// What came of one attempt.
#[derive(Debug, Clone)]
pub struct AttemptResult {
    pub observation: TcpObservation,
    pub success: bool,
    pub cancelled: bool,
    pub error: Option<ConnectError>,
}

/// An attempt to connect.
#[derive(Debug, Clone, Copy, PartialEq, Eq, Structural)]
pub struct TcpAttempt {
    pub index: usize,
    pub address: SocketAddr,
}

impl TcpAttempt {
    pub fn new(index: usize, address: SocketAddr) -> (r: TcpAttempt)
        ensures
            r == (TcpAttempt { index, address }),
    {
        TcpAttempt { index, address }
    }

    /// The attempt succeeded after `elapsed` nanoseconds.
    pub fn success(self, elapsed: u128) -> (r: AttemptResult)
        ensures
            r == (AttemptResult {
                observation: TcpObservation {
                    attempt: self.index,
                    address: self.address,
                    success: true,
                    elapsed,
                    error: None,
                    errno: None,
                    cancelled: false,
                    reason: None,
                },
                success: true,
                cancelled: false,
                error: None,
            }),
    {
        AttemptResult {
            observation: TcpObservation {
                attempt: self.index,
                address: self.address,
                success: true,
                elapsed,
                error: None,
                errno: None,
                cancelled: false,
                reason: None,
            },
            success: true,
            cancelled: false,
            error: None,
        }
    }

    /// The attempt failed after `elapsed` nanoseconds.
    pub fn failure(self, elapsed: u128, error: ConnectError) -> (r: AttemptResult)
        ensures
            r == (AttemptResult {
                observation: TcpObservation {
                    attempt: self.index,
                    address: self.address,
                    success: false,
                    elapsed,
                    error: Some(error.message),
                    errno: error.errno,
                    cancelled: false,
                    reason: None,
                },
                success: false,
                cancelled: false,
                error: Some(error),
            }),
    {
        AttemptResult {
            observation: TcpObservation {
                attempt: self.index,
                address: self.address,
                success: false,
                elapsed,
                error: Some(error.message.clone()),
                errno: error.errno,
                cancelled: false,
                reason: None,
            },
            success: false,
            cancelled: false,
            error: Some(error),
        }
    }

    /// Another attempt succeeded first.
    pub fn superseded(self, elapsed: u128) -> (r: AttemptResult)
        ensures
            !r.success,
            !r.cancelled,
            r.error is None,
            r.observation.is_stopped(self, elapsed, "superseded"@),
    {
        AttemptResult {
            observation: self.stopped(elapsed, "superseded"),
            success: false,
            cancelled: false,
            error: None,
        }
    }

    /// The check was cancelled.
    pub fn cancelled(self, elapsed: u128) -> (r: AttemptResult)
        ensures
            !r.success,
            r.cancelled,
            r.error is Some,
            r.error->0.message@ == "cancelled"@,
            r.error->0.errno is None,
            r.observation.is_stopped(self, elapsed, "cancelled"@),
    {
        AttemptResult {
            observation: self.stopped(elapsed, "cancelled"),
            success: false,
            cancelled: true,
            error: Some(ConnectError { message: "cancelled".to_string(), errno: None }),
        }
    }

    fn stopped(self, elapsed: u128, reason: &str) -> (r: TcpObservation)
        ensures
            r.is_stopped(self, elapsed, reason@),
    {
        TcpObservation {
            attempt: self.index,
            address: self.address,
            success: false,
            elapsed,
            error: None,
            errno: None,
            cancelled: true,
            reason: Some(reason.to_string()),
        }
    }
}

impl TcpObservation {
    /// The attempt was stopped for `reason` before it succeeded or failed.
    pub open spec fn is_stopped(&self, attempt: TcpAttempt, elapsed: u128, reason: Seq<char>) -> bool {
        &&& self.attempt == attempt.index
        &&& self.address == attempt.address
        &&& !self.success
        &&& self.elapsed == elapsed
        &&& self.error is None
        &&& self.errno is None
        &&& self.cancelled
        &&& self.reason is Some
        &&& self.reason->0@ == reason
    }
}

/// The contents of a [`TcpRace`].
pub struct RaceView {
    pub observations: Seq<TcpObservation>,
    pub success: Option<TcpObservation>,
    pub last_failure: Option<TcpObservation>,
    pub last_attempt: Option<TcpObservation>,
    pub error: Option<ConnectError>,
    pub cancelled: bool,
}

impl RaceView {
    pub open spec fn empty() -> RaceView {
        RaceView {
            observations: Seq::empty(),
            success: None,
            last_failure: None,
            last_attempt: None,
            error: None,
            cancelled: false,
        }
    }

    /// The race after an attempt ended. The first success counts. The last error counts, but
    /// one that comes from a cancellation only if there is no other.
    pub open spec fn after(self, result: AttemptResult) -> RaceView {
        RaceView {
            observations: self.observations.push(result.observation),
            success: if result.success && self.success is None {
                Some(result.observation)
            } else {
                self.success
            },
            last_failure: if !result.success && !result.cancelled {
                Some(result.observation)
            } else {
                self.last_failure
            },
            last_attempt: Some(result.observation),
            error: if result.error is Some && !(result.cancelled && self.error is Some) {
                result.error
            } else {
                self.error
            },
            cancelled: self.cancelled || result.cancelled,
        }
    }
}

/// The attempts to connect to the addresses of a host, as far as they ended.
#[derive(Debug)]
pub struct TcpRace {
    observations: Vec<TcpObservation>,
    success: Option<TcpObservation>,
    last_failure: Option<TcpObservation>,
    last_attempt: Option<TcpObservation>,
    error: Option<ConnectError>,
    cancelled: bool,
}

impl View for TcpRace {
    type V = RaceView;

    closed spec fn view(&self) -> RaceView {
        RaceView {
            observations: self.observations@,
            success: self.success,
            last_failure: self.last_failure,
            last_attempt: self.last_attempt,
            error: self.error,
            cancelled: self.cancelled,
        }
    }
}

impl TcpRace {
    pub fn new() -> (r: TcpRace)
        ensures
            r@ == RaceView::empty(),
    {
        TcpRace {
            observations: Vec::new(),
            success: None,
            last_failure: None,
            last_attempt: None,
            error: None,
            cancelled: false,
        }
    }

    /// Takes the result of an attempt. Returns whether it won the race, so that the other
    /// attempts are to be stopped.
    pub fn record(&mut self, result: AttemptResult) -> (r: bool)
        ensures
            final(self)@ == old(self)@.after(result),
            r == (result.success && old(self)@.success is None),
    {
        let won: bool = result.success && self.success.is_none();
        if won {
            self.success = Some(result.observation.copy());
        }
        if !result.success && !result.cancelled {
            self.last_failure = Some(result.observation.copy());
        }
        self.last_attempt = Some(result.observation.copy());
        if result.error.is_some() && !(result.cancelled && self.error.is_some()) {
            self.error = result.error;
        }
        if result.cancelled {
            self.cancelled = true;
        }
        self.observations.push(result.observation);
        won
    }
}

/// The summary of a race, if there is anything to summarise.
pub open spec fn race_summary(race: RaceView, cancelled: bool) -> Option<
    Seq<(Seq<char>, FieldView)>,
> {
    match (race.success, race.error) {
        (Some(winner), _) => Some(winner.summary()),
        (None, error) => if race.cancelled || cancelled {
            Some(TcpObservation::cancelled_summary(race.last_attempt))
        } else {
            match error {
                Some(e) => Some(
                    TcpObservation::failed_summary(
                        e,
                        match race.last_failure {
                            Some(f) => Some(f),
                            None => race.last_attempt,
                        },
                    ),
                ),
                None => None,
            }
        },
    }
}

/// Reports a race: the lease is cancelled if an attempt or the check was.
pub fn tcp_report(lease_id: u64, race: TcpRace, cancelled: bool) -> (r: WorkerReport)
    ensures
        ({
            let v = race@;
            let stopped = v.cancelled || cancelled;
            let observations = r@.observations(stopped);
            let n = v.observations.len();
            &&& r@.is_single(lease_id, stopped)
            &&& forall|i: int|
                0 <= i < n ==> (#[trigger] observations[i]).is_record(
                    "tcp_attempt"@,
                    v.observations[i].fields(),
                )
            &&& match race_summary(v, cancelled) {
                Some(summary) => observations.len() == n + 1 && observations.last().is_record(
                    "tcp_summary"@,
                    summary,
                ),
                None => observations.len() == n,
            }
        }),
{
    let ghost all = race.observations@;
    let mut left: Vec<TcpObservation> = race.observations;
    let mut list: Vec<Observation> = Vec::new();
    let ghost mut done: int = 0;
    assert(all.skip(0) =~= all);
    while left.len() > 0
        invariant
            0 <= done <= all.len(),
            left@ == all.skip(done),
            list@.len() == done,
            forall|i: int|
                0 <= i < done ==> (#[trigger] list@[i]).is_record("tcp_attempt"@, all[i].fields()),
        decreases left.len(),
    {
        let next: TcpObservation = left.remove(0);
        proof {
            assert(next == all[done]);
            assert(left@ =~= all.skip(done + 1));
            done = done + 1;
        }
        list.push(next.into_observation());
    }
    let stopped: bool = race.cancelled || cancelled;
    match race.success {
        Some(winner) => {
            list.push(winner.into_summary());
        },
        None => {
            if stopped {
                list.push(TcpObservation::cancellation_summary(race.last_attempt));
            } else if let Some(error) = race.error {
                let context: Option<TcpObservation> = match race.last_failure {
                    Some(f) => Some(f),
                    None => race.last_attempt,
                };
                list.push(TcpObservation::failure_summary(error, context));
            }
        },
    }
    single_report(lease_id, stopped, list)
}

/// The race after all of `results` ended, in this order.
pub open spec fn raced(results: Seq<AttemptResult>) -> RaceView
    decreases results.len(),
{
    if results.len() == 0 {
        RaceView::empty()
    } else {
        raced(results.drop_last()).after(results.last())
    }
}

/// A check succeeds if and only if one of its attempts does, and it reports the first one
/// that did.
pub proof fn law_race_reports_first_success(results: Seq<AttemptResult>)
    ensures
        raced(results).observations.len() == results.len(),
        match raced(results).success {
            Some(winner) => exists|i: int|
                0 <= i < results.len() && (#[trigger] results[i]).success && results[i].observation
                    == winner && forall|k: int| 0 <= k < i ==> !(#[trigger] results[k]).success,
            None => forall|k: int| 0 <= k < results.len() ==> !(#[trigger] results[k]).success,
        },
    decreases results.len(),
{
    if results.len() > 0 {
        let init = results.drop_last();
        law_race_reports_first_success(init);
        let n = init.len() as int;
        assert forall|k: int| 0 <= k < n implies #[trigger] results[k] == init[k] by {}
        match raced(init).success {
            Some(winner) => {
                let i = choose|i: int|
                    0 <= i < init.len() && (#[trigger] init[i]).success && init[i].observation
                        == winner && forall|k: int| 0 <= k < i ==> !(#[trigger] init[k]).success;
                assert(results[i].success && results[i].observation == winner);
                assert forall|k: int| 0 <= k < i implies !(#[trigger] results[k]).success by {
                    assert(!init[k].success);
                }
            },
            None => {
                assert forall|k: int| 0 <= k < n implies !(#[trigger] results[k]).success by {
                    assert(!init[k].success);
                }
                if results[n].success {
                    assert(results[n].observation == raced(results).success->0);
                }
            },
        }
    }
}

/// What a worker does with a TCP lease.
pub enum TcpStart {
    /// The lease is over.
    Report(WorkerReport),
    /// The host is to be resolved.
    Resolve { lease_id: u64, spec: TcpSpec },
    /// The lease holds another kind of task.
    Unexpected(TaskSpec),
}

/// Starts on a lease. A lease that was cancelled is reported at once.
pub fn begin_tcp(lease: Lease, cancelled: bool) -> (r: TcpStart)
    ensures
        if cancelled {
            &&& r is Report
            &&& r->Report_0@.is_single(lease.lease_id, true)
            &&& r->Report_0@.observations(true).len() == 1
            &&& r->Report_0@.observations(true)[0].is_record(
                "tcp_summary"@,
                TcpObservation::cancelled_summary(None),
            )
        } else {
            match lease.spec {
                TaskSpec::Tcp(spec) => r == (TcpStart::Resolve { lease_id: lease.lease_id, spec }),
                other => r == TcpStart::Unexpected(other),
            }
        },
{
    if cancelled {
        let mut list: Vec<Observation> = Vec::new();
        list.push(TcpObservation::cancellation_summary(None));
        return TcpStart::Report(single_report(lease.lease_id, true, list));
    }
    match lease.spec {
        TaskSpec::Tcp(spec) => TcpStart::Resolve { lease_id: lease.lease_id, spec },
        other => TcpStart::Unexpected(other),
    }
}

/// What is reported of a host that has no address.
pub open spec fn unresolved_fields(spec: TcpSpec, error: Seq<char>) -> Seq<(Seq<char>, FieldView)> {
    seq![
        ("host"@, FieldView::Text(spec.host@)),
        ("port"@, FieldView::Number(spec.port as u64)),
        ("error"@, FieldView::Text(error)),
    ]
}

/// Completes a lease whose host has no address.
pub fn tcp_resolution_failure(lease_id: u64, spec: &TcpSpec, error: &str) -> (r: WorkerReport)
    ensures
        r@.is_single(lease_id, false),
        r@.observations(false).len() == 1,
        r@.observations(false)[0].is_record("tcp_resolution"@, unresolved_fields(*spec, error@)),
{
    let mut fields: Vec<Field> = Vec::new();
    push_field(&mut fields, text_field("host", spec.host.as_str()));
    push_field(&mut fields, number_field("port", spec.port as u64));
    push_field(&mut fields, text_field("error", error));
    assert(field_views(fields@) =~= unresolved_fields(*spec, error@));
    let mut list: Vec<Observation> = Vec::new();
    list.push(record("tcp_resolution", fields));
    single_report(lease_id, false, list)
}

/// The addresses that a check connects to. Without any, the lease is completed with the reason.
pub fn tcp_targets(
    lease_id: u64,
    spec: &TcpSpec,
    addresses: Result<Vec<SocketAddr>, String>,
) -> (r: Result<Vec<SocketAddr>, WorkerReport>)
    ensures
        if has_address(addresses) {
            r == Ok::<Vec<SocketAddr>, WorkerReport>(addresses->Ok_0)
        } else {
            &&& r is Err
            &&& r->Err_0@.is_single(lease_id, false)
            &&& r->Err_0@.observations(false).len() == 1
            &&& r->Err_0@.observations(false)[0].is_record(
                "tcp_resolution"@,
                unresolved_fields(
                    *spec,
                    match addresses {
                        Ok(_) => "no socket addresses resolved"@,
                        Err(e) => e@,
                    },
                ),
            )
        },
{
    match addresses {
        Ok(found) => {
            if found.len() > 0 {
                Ok(found)
            } else {
                Err(tcp_resolution_failure(lease_id, spec, "no socket addresses resolved"))
            }
        },
        Err(error) => Err(tcp_resolution_failure(lease_id, spec, error.as_str())),
    }
}

/// While addresses of both families are left, they alternate, an IPv6 address first. What is left
/// of one family comes behind, each family in its own order.
pub proof fn law_families_alternate(s: Seq<SocketAddr>, i: int)
    requires
        0 <= i,
    ensures
        ({
            let v6 = s.filter(|a: SocketAddr| a.ip is V6);
            let v4 = s.filter(|a: SocketAddr| !(a.ip is V6));
            let r = ordered(s);
            &&& r.len() == v6.len() + v4.len()
            &&& i < v6.len() && i < v4.len() ==> r[2 * i] == v6[i] && r[2 * i + 1] == v4[i]
            &&& v4.len() <= i < v6.len() ==> r[v4.len() + i] == v6[i]
            &&& v6.len() <= i < v4.len() ==> r[v6.len() + i] == v4[i]
        }),
{
    let v6 = s.filter(|a: SocketAddr| a.ip is V6);
    let v4 = s.filter(|a: SocketAddr| !(a.ip is V6));
    assert((|a: SocketAddr| (a.ip is V6) == true) =~= (|a: SocketAddr| a.ip is V6));
    assert((|a: SocketAddr| (a.ip is V6) == false) =~= (|a: SocketAddr| !(a.ip is V6)));
    assert(family(s, true) == v6);
    assert(family(s, false) == v4);
    lemma_alternate_at(v6, v4, i);
}

proof fn lemma_alternate_at(a: Seq<SocketAddr>, b: Seq<SocketAddr>, i: int)
    requires
        0 <= i,
    ensures
        alternate(a, b).len() == a.len() + b.len(),
        i < a.len() && i < b.len() ==> alternate(a, b)[2 * i] == a[i] && alternate(a, b)[2 * i + 1]
            == b[i],
        b.len() <= i < a.len() ==> alternate(a, b)[b.len() + i] == a[i],
        a.len() <= i < b.len() ==> alternate(a, b)[a.len() + i] == b[i],
    decreases a.len() + b.len(),
{
    if a.len() > 0 && b.len() > 0 {
        let rest = alternate(a.skip(1), b.skip(1));
        assert(alternate(a, b) == seq![a[0], b[0]] + rest);
        lemma_alternate_at(
            a.skip(1),
            b.skip(1),
            if i > 0 {
                i - 1
            } else {
                0
            },
        );
        if i > 0 {
            if i < a.len() && i < b.len() {
                assert(alternate(a, b)[2 * i] == rest[2 * (i - 1)]);
                assert(alternate(a, b)[2 * i + 1] == rest[2 * (i - 1) + 1]);
            } else if b.len() <= i < a.len() {
                assert(alternate(a, b)[b.len() + i] == rest[b.skip(1).len() + (i - 1)]);
            } else if a.len() <= i < b.len() {
                assert(alternate(a, b)[a.len() + i] == rest[a.skip(1).len() + (i - 1)]);
            }
        }
    }
}

/// Without repetitions the addresses stand in the order in which they first occurred.
pub proof fn law_distinct_keeps_order(s: Seq<SocketAddr>, i: int, j: int)
    requires
        0 <= i < j < distinct(s).len(),
    ensures
        exists|p: int|
            0 <= p < s.len() && #[trigger] s[p] == distinct(s)[i] && forall|q: int|
                0 <= q <= p ==> #[trigger] s[q] != distinct(s)[j],
    decreases s.len(),
{
    let init = s.drop_last();
    let d = distinct(init);
    assert(s =~= init.push(s.last()));
    law_distinct(init);
    if j < d.len() {
        law_distinct_keeps_order(init, i, j);
        let p = choose|p: int|
            0 <= p < init.len() && #[trigger] init[p] == d[i] && forall|q: int|
                0 <= q <= p ==> #[trigger] init[q] != d[j];
        assert(s[p] == distinct(s)[i]);
        assert forall|q: int| 0 <= q <= p implies #[trigger] s[q] != distinct(s)[j] by {
            assert(init[q] == s[q]);
        }
    } else {
        assert(distinct(s) == d.push(s.last()));
        assert(d.contains(d[i]));
        assert(init.contains(d[i]));
        let p = choose|p: int| 0 <= p < init.len() && init[p] == d[i];
        assert(s[p] == distinct(s)[i]);
        assert forall|q: int| 0 <= q <= p implies #[trigger] s[q] != distinct(s)[j] by {
            assert(init[q] == s[q]);
            assert(init.contains(init[q]));
            assert(d.contains(init[q]));
        }
    }
}

/// The targets are the addresses that either lookup found, each once. There are none only if
/// neither lookup found any.
pub proof fn law_targets_are_what_was_found(
    host: Seq<char>,
    first: Result<Vec<SocketAddr>, String>,
    second: BlockingLookup,
    address: SocketAddr,
)
    ensures
        ({
            let found = (first is Ok && first->Ok_0@.contains(address)) || (second is Found
                && second->Found_0@.contains(address));
            match targets_of(host, first, second) {
                Ok(list) => {
                    &&& list.contains(address) <==> found
                    &&& list.no_duplicates()
                    &&& list.len() > 0
                },
                Err(_) => !found,
            }
        }),
{
    let a = match first {
        Ok(list) => list@,
        Err(_) => Seq::empty(),
    };
    let b = match second {
        BlockingLookup::Found(list) => list@,
        _ => Seq::empty(),
    };
    let found = a + b;
    law_distinct(found);
    law_ordering_is_a_permutation(distinct(found));
    lemma_permutation_members(ordered(distinct(found)), distinct(found));
    if a.contains(address) {
        let k = choose|k: int| 0 <= k < a.len() && a[k] == address;
        assert(found[k] == address);
    }
    if b.contains(address) {
        let k = choose|k: int| 0 <= k < b.len() && b[k] == address;
        assert(found[a.len() + k] == address);
    }
    if found.contains(address) {
        let k = choose|k: int| 0 <= k < found.len() && found[k] == address;
        if k < a.len() {
            assert(a[k] == address);
        } else {
            assert(b[k - a.len()] == address);
        }
    }
    if found.len() > 0 {
        assert(found.contains(found[0]));
        assert(distinct(found).contains(found[0]));
        assert(ordered(distinct(found)).contains(found[0]));
    }
}

proof fn lemma_permutation_members(a: Seq<SocketAddr>, b: Seq<SocketAddr>)
    requires
        a.to_multiset() == b.to_multiset(),
        b.no_duplicates(),
    ensures
        a.no_duplicates(),
        forall|x: SocketAddr| a.contains(x) <==> b.contains(x),
{
    broadcast use vstd::seq_lib::group_to_multiset_ensures;

    b.lemma_multiset_has_no_duplicates();
    a.lemma_multiset_has_no_duplicates_conv();
    assert forall|x: SocketAddr| a.contains(x) <==> b.contains(x) by {
        assert(a.contains(x) <==> a.to_multiset().count(x) > 0);
        assert(b.contains(x) <==> b.to_multiset().count(x) > 0);
    }
}

/// A race keeps what came of every attempt, in the order in which the attempts ended, and knows
/// whether one of them was cancelled.
pub proof fn law_race_keeps_every_attempt(results: Seq<AttemptResult>)
    ensures
        ({
            let race = raced(results);
            &&& race.observations == results.map_values(|r: AttemptResult| r.observation)
            &&& results.len() > 0 ==> race.last_attempt == Some(results.last().observation)
            &&& results.len() == 0 ==> race.last_attempt is None
            &&& race.cancelled <==> exists|i: int|
                0 <= i < results.len() && (#[trigger] results[i]).cancelled
        }),
    decreases results.len(),
{
    if results.len() > 0 {
        let init = results.drop_last();
        law_race_keeps_every_attempt(init);
        assert(raced(results).observations =~= results.map_values(
            |r: AttemptResult| r.observation,
        ));
        assert(forall|i: int| 0 <= i < init.len() ==> #[trigger] init[i] == results[i]);
        assert(results[results.len() - 1] == results.last());
        if raced(init).cancelled {
            let i = choose|i: int| 0 <= i < init.len() && (#[trigger] init[i]).cancelled;
            assert(results[i].cancelled);
        }
        if exists|i: int| 0 <= i < results.len() && (#[trigger] results[i]).cancelled {
            let i = choose|i: int| 0 <= i < results.len() && (#[trigger] results[i]).cancelled;
            if i < init.len() {
                assert(init[i].cancelled);
            }
        }
    }
}

/// The failure that a race remembers is that of the last attempt that neither succeeded nor was
/// cancelled, here the one at `i`.
pub proof fn law_race_remembers_the_last_failure(results: Seq<AttemptResult>, i: int)
    requires
        0 <= i < results.len(),
        !results[i].success && !results[i].cancelled,
        forall|k: int|
            i < k < results.len() ==> (#[trigger] results[k]).success || results[k].cancelled,
    ensures
        raced(results).last_failure == Some(results[i].observation),
    decreases results.len(),
{
    let init = results.drop_last();
    if i < init.len() {
        assert(results[results.len() - 1] == results.last());
        assert forall|k: int| i < k < init.len() implies (#[trigger] init[k]).success
            || init[k].cancelled by {
            assert(init[k] == results[k]);
        }
        law_race_remembers_the_last_failure(init, i);
    }
}

/// The error that a race remembers is that of the last attempt that failed without being
/// cancelled, here the one at `i`.
pub proof fn law_race_remembers_the_last_error(results: Seq<AttemptResult>, i: int)
    requires
        0 <= i < results.len(),
        results[i].error is Some && !results[i].cancelled,
        forall|k: int|
            i < k < results.len() ==> (#[trigger] results[k]).error is None || results[k].cancelled,
    ensures
        raced(results).error == results[i].error,
    decreases results.len(),
{
    let init = results.drop_last();
    if i < init.len() {
        assert(results[results.len() - 1] == results.last());
        assert forall|k: int| i < k < init.len() implies (#[trigger] init[k]).error is None
            || init[k].cancelled by {
            assert(init[k] == results[k]);
        }
        law_race_remembers_the_last_error(init, i);
    }
}

/// Where only cancelled attempts left an error, a race remembers the first one, here that at `i`.
pub proof fn law_race_remembers_the_first_cancelled_error(results: Seq<AttemptResult>, i: int)
    requires
        0 <= i < results.len(),
        results[i].error is Some,
        forall|k: int| 0 <= k < i ==> (#[trigger] results[k]).error is None,
        forall|k: int|
            i <= k < results.len() ==> (#[trigger] results[k]).error is None
                || results[k].cancelled,
    ensures
        raced(results).error == results[i].error,
    decreases results.len(),
{
    let init = results.drop_last();
    if i < init.len() {
        assert(results[results.len() - 1] == results.last());
        assert forall|k: int| i <= k < init.len() implies (#[trigger] init[k]).error is None
            || init[k].cancelled by {
            assert(init[k] == results[k]);
        }
        assert forall|k: int| 0 <= k < i implies (#[trigger] init[k]).error is None by {
            assert(init[k] == results[k]);
        }
        law_race_remembers_the_first_cancelled_error(init, i);
    } else {
        assert forall|k: int| 0 <= k < init.len() implies (#[trigger] init[k]).error is None by {
            assert(init[k] == results[k]);
        }
        law_race_without_errors(init);
    }
}

/// A race without errors remembers none.
pub proof fn law_race_without_errors(results: Seq<AttemptResult>)
    requires
        forall|k: int| 0 <= k < results.len() ==> (#[trigger] results[k]).error is None,
    ensures
        raced(results).error is None,
    decreases results.len(),
{
    if results.len() > 0 {
        let init = results.drop_last();
        assert(results[results.len() - 1] == results.last());
        assert forall|k: int| 0 <= k < init.len() implies (#[trigger] init[k]).error is None by {
            assert(init[k] == results[k]);
        }
        law_race_without_errors(init);
    }
}

/// A race is summed up by its first success, here the attempt at `i`, whatever else happened.
pub proof fn law_winner_sums_up_the_race(results: Seq<AttemptResult>, cancelled: bool, i: int)
    requires
        0 <= i < results.len(),
        results[i].success,
        forall|k: int| 0 <= k < i ==> !(#[trigger] results[k]).success,
    ensures
        match race_summary(raced(results), cancelled) {
            Some(s) => {
                &&& s.contains(("success"@, FieldView::Bool(true)))
                &&& s.contains(("address"@, FieldView::Address(results[i].observation.address)))
                &&& s.contains(("rtt_ms"@, FieldView::Millis(results[i].observation.elapsed)))
            },
            None => false,
        },
{
    law_race_reports_first_success(results);
    let race = raced(results);
    assert(race.success is Some);
    assert(race.success == Some(results[i].observation)) by {
        let j = choose|j: int|
            0 <= j < results.len() && (#[trigger] results[j]).success && results[j].observation
                == race.success->0 && forall|k: int|
                0 <= k < j ==> !(#[trigger] results[k]).success;
        assert(i == j);
    }
    let s = results[i].observation.summary();
    assert(s[0].0 == "success"@);
    assert(s[1].0 == "address"@);
    assert(s[2].0 == "rtt_ms"@);
}

/// A race without a success counts as cancelled if the lease was, or one of its attempts. The
/// summary tells of the last attempt.
pub proof fn law_stopped_race_is_cancelled(results: Seq<AttemptResult>, cancelled: bool)
    requires
        forall|k: int| 0 <= k < results.len() ==> !(#[trigger] results[k]).success,
        cancelled || exists|k: int| 0 <= k < results.len() && (#[trigger] results[k]).cancelled,
    ensures
        match race_summary(raced(results), cancelled) {
            Some(s) => {
                &&& s.contains(("success"@, FieldView::Bool(false)))
                &&& s.contains(("cancelled"@, FieldView::Bool(true)))
                &&& results.len() > 0 ==> s.contains(
                    ("address"@, FieldView::Address(results.last().observation.address)),
                ) && s.contains(("rtt_ms"@, FieldView::Millis(results.last().observation.elapsed)))
            },
            None => false,
        },
{
    law_race_reports_first_success(results);
    law_race_keeps_every_attempt(results);
    let race = raced(results);
    assert(race.success is None);
    let s = TcpObservation::cancelled_summary(race.last_attempt);
    assert(s[0].0 == "success"@);
    assert(s[1].0 == "cancelled"@);
    assert(s[2].0 == "address"@);
    assert(s[3].0 == "rtt_ms"@);
}

/// A race whose attempts all failed is summed up as failed, with the error, the address and the
/// time of the last attempt.
pub proof fn law_failed_race_tells_the_last_error(results: Seq<AttemptResult>)
    requires
        results.len() > 0,
        results.last().error is Some,
        forall|k: int|
            0 <= k < results.len() ==> !(#[trigger] results[k]).success && !results[k].cancelled,
    ensures
        match race_summary(raced(results), false) {
            Some(s) => {
                &&& s.contains(("success"@, FieldView::Bool(false)))
                &&& s.contains(("error"@, FieldView::Text(results.last().error->0.message@)))
                &&& s.contains(("address"@, FieldView::Address(results.last().observation.address)))
                &&& s.contains(("rtt_ms"@, FieldView::Millis(results.last().observation.elapsed)))
                &&& results.last().observation.errno is Some ==> s.contains(
                    ("errno"@, FieldView::Errno(results.last().observation.errno->0)),
                )
            },
            None => false,
        },
{
    let n = results.len() - 1;
    assert(results[n] == results.last());
    law_race_reports_first_success(results);
    law_race_keeps_every_attempt(results);
    law_race_remembers_the_last_failure(results, n);
    law_race_remembers_the_last_error(results, n);
    let race = raced(results);
    assert(race.success is None);
    assert(!race.cancelled);
    let s = race_summary(race, false)->0;
    assert(s[0].0 == "success"@);
    assert(s[1].0 == "address"@);
    assert(s[2].0 == "rtt_ms"@);
    assert(s[3].0 == "error"@);
    assert(s[4].0 == "errno"@);
}

/// What is reported of an attempt: its number, whether it succeeded, its address and its time, and
/// what went wrong or why it was stopped.
pub proof fn law_report_tells_each_attempt(o: TcpObservation)
    ensures
        ({
            let f = o.fields();
            &&& f.len() == 8
            &&& f.contains(("attempt"@, FieldView::Number(o.attempt as u64)))
            &&& f.contains(("success"@, FieldView::Bool(o.success)))
            &&& f.contains(("address"@, FieldView::Address(o.address)))
            &&& f.contains(("rtt_ms"@, FieldView::Millis(o.elapsed)))
            &&& f.contains(("cancelled"@, FieldView::Bool(o.cancelled)))
            &&& f.contains(
                (
                    "error"@,
                    match o.error {
                        Some(text) => FieldView::Text(text@),
                        None => FieldView::Null,
                    },
                ),
            )
            &&& f.contains(
                (
                    "errno"@,
                    match o.errno {
                        Some(n) => FieldView::Errno(n),
                        None => FieldView::Null,
                    },
                ),
            )
            &&& f.contains(
                (
                    "reason"@,
                    match o.reason {
                        Some(text) => FieldView::Text(text@),
                        None => FieldView::Null,
                    },
                ),
            )
        }),
{
    let f = o.fields();
    assert(f[0].0 == "attempt"@);
    assert(f[1].0 == "success"@);
    assert(f[2].0 == "address"@);
    assert(f[3].0 == "rtt_ms"@);
    assert(f[4].0 == "error"@);
    assert(f[5].0 == "errno"@);
    assert(f[6].0 == "cancelled"@);
    assert(f[7].0 == "reason"@);
}

/// Where no address was found, the error of the first lookup is told, else that of the second, else
/// that the host has none.
pub proof fn law_failed_lookups_tell_why(
    host: Seq<char>,
    first: Result<Vec<SocketAddr>, String>,
    second: BlockingLookup,
)
    requires
        first is Ok ==> first->Ok_0@.len() == 0,
        second is Found ==> second->Found_0@.len() == 0,
    ensures
        match targets_of(host, first, second) {
            Ok(_) => false,
            Err(text) => {
                &&& first is Err ==> text == "async resolver failed: "@ + first->Err_0@
                &&& first is Ok && second is Failed ==> text == "std resolver failed: "@
                    + second->Failed_0@
                &&& first is Ok && second is Aborted ==> text == "blocking resolver join error: "@
                    + second->Aborted_0@
                &&& first is Ok && second is Found ==> text
                    == "no socket addresses resolved for host "@ + host
            },
        },
{
}

} // verus!
