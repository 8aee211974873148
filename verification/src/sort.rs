//! Sorting of durations.

use vstd::prelude::*;

verus! {

/// `v` put in its place in the ascending sequence `s`, behind equal values.
pub open spec fn inserted(s: Seq<u128>, v: u128) -> Seq<u128>
    decreases s.len(),
{
    if s.len() == 0 || s.last() <= v {
        s.push(v)
    } else {
        inserted(s.drop_last(), v).push(s.last())
    }
}

/// The values of `s` in ascending order.
pub open spec fn ascending(s: Seq<u128>) -> Seq<u128>
    decreases s.len(),
{
    if s.len() == 0 {
        s
    } else {
        inserted(ascending(s.drop_last()), s.last())
    }
}

/// No value is followed by a smaller one.
pub open spec fn is_ascending(s: Seq<u128>) -> bool {
    forall|i: int, j: int| 0 <= i <= j < s.len() ==> s[i] <= s[j]
}

proof fn lemma_inserted(s: Seq<u128>, v: u128)
    requires
        is_ascending(s),
    ensures
        is_ascending(inserted(s, v)),
        inserted(s, v).len() == s.len() + 1,
        inserted(s, v).to_multiset() == s.to_multiset().insert(v),
        forall|i: int|
            0 <= i < inserted(s, v).len() ==> inserted(s, v)[i] == v || (s.len() > 0
                && inserted(s, v)[i] <= s.last()),
    decreases s.len(),
{
    broadcast use vstd::seq_lib::group_to_multiset_ensures;

    if s.len() == 0 || s.last() <= v {
        assert(inserted(s, v) == s.push(v));
    } else {
        let init = s.drop_last();
        lemma_inserted(init, v);
        let placed = inserted(init, v);
        assert(s =~= init.push(s.last()));
        assert(placed.push(s.last()).to_multiset() =~= s.to_multiset().insert(v));
        assert forall|i: int, j: int| 0 <= i <= j < placed.len() + 1 implies placed.push(
            s.last(),
        )[i] <= placed.push(s.last())[j] by {
            if j == placed.len() && i < j {
                assert(placed[i] == v || (init.len() > 0 && placed[i] <= init.last()));
            }
        }
    }
}

/// Sorting keeps the values and puts them in ascending order.
pub proof fn law_ascending_sorts(s: Seq<u128>)
    ensures
        is_ascending(ascending(s)),
        ascending(s).len() == s.len(),
        ascending(s).to_multiset() == s.to_multiset(),
    decreases s.len(),
{
    broadcast use vstd::seq_lib::group_to_multiset_ensures;

    if s.len() > 0 {
        law_ascending_sorts(s.drop_last());
        lemma_inserted(ascending(s.drop_last()), s.last());
        assert(s =~= s.drop_last().push(s.last()));
    }
}

fn insert_sorted(list: &mut Vec<u128>, v: u128)
    ensures
        final(list)@ == inserted(old(list)@, v),
{
    let ghost s = list@;
    let mut at: usize = list.len();
    assert(s.take(at as int) + s.skip(at as int) =~= s);
    assert(inserted(s.take(at as int), v) + s.skip(at as int) =~= inserted(s, v));
    while at > 0 && list[at - 1] > v
        invariant
            at <= list.len(),
            list@ == s,
            inserted(s, v) == inserted(s.take(at as int), v) + s.skip(at as int),
        decreases at,
    {
        proof {
            let part = s.take(at as int);
            assert(part.drop_last() =~= s.take(at - 1));
            assert(part.last() == s[at - 1]);
            assert(inserted(part, v) + s.skip(at as int) =~= inserted(s.take(at - 1), v) + s.skip(
                at - 1,
            ));
        }
        at = at - 1;
    }
    list.insert(at, v);
    proof {
        let part = s.take(at as int);
        if at > 0 {
            assert(part.last() == s[at - 1]);
        }
        assert(inserted(part, v) == part.push(v));
        assert(list@ =~= part.push(v) + s.skip(at as int));
    }
}

/// The values of `list` in ascending order.
pub fn sorted(list: &Vec<u128>) -> (r: Vec<u128>)
    ensures
        r@ == ascending(list@),
{
    let mut r: Vec<u128> = Vec::new();
    let mut i: usize = 0;
    assert(list@.take(0) =~= Seq::empty());
    while i < list.len()
        invariant
            i <= list.len(),
            r@ == ascending(list@.take(i as int)),
        decreases list.len() - i,
    {
        insert_sorted(&mut r, list[i]);
        assert(list@.take(i + 1).drop_last() =~= list@.take(i as int));
        i = i + 1;
    }
    assert(list@.take(i as int) =~= list@);
    r
}

} // verus!
