use vstd::prelude::*;
use crate::enemy::Enemy;
use vstd::seq_lib::{to_multiset_build, to_multiset_insert};

verus! {

/// How many enemies at the front of `t` are no farther than `d`.
pub open spec fn lead_within(t: Seq<Enemy>, d: i64) -> nat
    decreases t.len(),
{
    if t.len() == 0 || t[0].distance.0 > d {
        0
    } else {
        1 + lead_within(t.drop_first(), d)
    }
}

/// `s` ordered by ascending distance; enemies at equal distance keep their order.
pub open spec fn by_distance(s: Seq<Enemy>) -> Seq<Enemy>
    decreases s.len(),
{
    if s.len() == 0 {
        s
    } else {
        let t = by_distance(s.drop_last());
        t.insert(lead_within(t, s.last().distance.0) as int, s.last())
    }
}

pub open spec fn is_by_distance(s: Seq<Enemy>) -> bool {
    forall|i: int, j: int| 0 <= i < j < s.len() ==> s[i].distance.0 <= s[j].distance.0
}

proof fn lemma_lead_within(t: Seq<Enemy>, d: i64, p: int)
    requires
        0 <= p <= t.len(),
        forall|j: int| 0 <= j < p ==> t[j].distance.0 <= d,
        p == t.len() || t[p].distance.0 > d,
    ensures
        lead_within(t, d) == p,
    decreases p,
{
    if p > 0 {
        lemma_lead_within(t.drop_first(), d, p - 1);
    }
}

proof fn lemma_lead_within_bounds(t: Seq<Enemy>, d: i64)
    ensures
        lead_within(t, d) <= t.len(),
        forall|j: int| 0 <= j < lead_within(t, d) ==> t[j].distance.0 <= d,
        lead_within(t, d) == t.len() || t[lead_within(t, d) as int].distance.0 > d,
    decreases t.len(),
{
    if t.len() > 0 && t[0].distance.0 <= d {
        lemma_lead_within_bounds(t.drop_first(), d);
        assert forall|j: int| 0 <= j < lead_within(t, d) implies t[j].distance.0 <= d by {
            if j > 0 {
                assert(t[j] == t.drop_first()[j - 1]);
            }
        }
    }
}

/// The ordering is ascending by distance.
pub proof fn lemma_by_distance_sorted(s: Seq<Enemy>)
    ensures
        is_by_distance(by_distance(s)),
        by_distance(s).len() == s.len(),
    decreases s.len(),
{
    if s.len() > 0 {
        let t = by_distance(s.drop_last());
        let e = s.last();
        lemma_by_distance_sorted(s.drop_last());
        lemma_lead_within_bounds(t, e.distance.0);
        let p = lead_within(t, e.distance.0) as int;
        t.insert_ensures(p, e);
        let r = t.insert(p, e);
        assert forall|i: int, j: int| 0 <= i < j < r.len() implies r[i].distance.0
            <= r[j].distance.0 by {
            if j < p {
            } else if j == p {
            } else if i < p {
                assert(r[j] == t[j - 1]);
                assert(t[i].distance.0 <= t[j - 1].distance.0);
            } else if i == p {
                assert(r[j] == t[j - 1]);
                assert(t[p].distance.0 <= t[j - 1].distance.0);
            } else {
                assert(r[i] == t[i - 1] && r[j] == t[j - 1]);
            }
        }
    }
}

/// The ordering holds the same enemies, as many times each.
pub proof fn lemma_by_distance_permutes(s: Seq<Enemy>)
    ensures
        by_distance(s).to_multiset() == s.to_multiset(),
    decreases s.len(),
{
    if s.len() > 0 {
        let t = by_distance(s.drop_last());
        lemma_by_distance_permutes(s.drop_last());
        lemma_by_distance_sorted(s.drop_last());
        lemma_lead_within_bounds(t, s.last().distance.0);
        to_multiset_insert(t, lead_within(t, s.last().distance.0) as int, s.last());
        assert(s =~= s.drop_last().push(s.last()));
        to_multiset_build(s.drop_last(), s.last());
    }
}

/// Orders `v` by ascending distance, keeping the order of equal distances.
pub fn sort_by_distance(v: Vec<Enemy>) -> (r: Vec<Enemy>)
    ensures
        r@ == by_distance(v@),
{
    let mut out: Vec<Enemy> = Vec::new();
    let mut i: usize = 0;
    while i < v.len()
        invariant
            i <= v.len(),
            out@ == by_distance(v@.take(i as int)),
        decreases v.len() - i,
    {
        let e = v[i];
        let mut p: usize = 0;
        while p < out.len() && out[p].distance.0 <= e.distance.0
            invariant
                p <= out.len(),
                forall|j: int| 0 <= j < p ==> out@[j].distance.0 <= e.distance.0,
            decreases out.len() - p,
        {
            p = p + 1;
        }
        proof {
            lemma_lead_within(out@, e.distance.0, p as int);
            assert(v@.take(i + 1).drop_last() =~= v@.take(i as int));
        }
        out.insert(p, e);
        i = i + 1;
    }
    proof {
        assert(v@.take(i as int) =~= v@);
    }
    out
}

} // verus!
