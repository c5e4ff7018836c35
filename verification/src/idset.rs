//! Sets of context ids (`HashSet<u64>`) and the set algebra the query
//! executor needs, each proved against `Set<u64>`.
use vstd::prelude::*;
use std::collections::HashSet;

verus! {

broadcast use vstd::std_specs::hash::group_hash_axioms;

/// An empty set.
pub fn empty_ids() -> (r: HashSet<u64>)
    ensures
        r@ == Set::<u64>::empty(),
{
    HashSet::new()
}

/// The set `{id}`.
pub fn single_id(id: u64) -> (r: HashSet<u64>)
    ensures
        r@ == Set::<u64>::empty().insert(id),
{
    let mut r = HashSet::new();
    r.insert(id);
    r
}

/// A copy of a set.
pub fn copy_ids(a: &HashSet<u64>) -> (r: HashSet<u64>)
    ensures
        r@ == a@,
{
    let mut r: HashSet<u64> = HashSet::new();
    for x in it: a.iter()
        invariant
            r@ == it.seq().take(it.index() as int).unref().to_set(),
            it.seq().unref().to_set() == a@,
            it.seq().take(it.seq().len() as int) == it.seq(),
    {
        let ghost before = it.seq().take(it.index() as int).unref();
        r.insert(*x);
        proof {
            assert(it.seq().take(it.index() + 1).unref() =~= before.push(*x));
            lemma_to_set_push(before, *x);
        }
    }
    r
}

/// `a` with every element of `b` added.
pub fn extend_ids(a: &mut HashSet<u64>, b: &HashSet<u64>)
    ensures
        final(a)@ == old(a)@.union(b@),
{
    for x in it: b.iter()
        invariant
            a@ == old(a)@.union(it.seq().take(it.index() as int).unref().to_set()),
            it.seq().unref().to_set() == b@,
            it.seq().take(it.seq().len() as int) == it.seq(),
    {
        let ghost before = it.seq().take(it.index() as int).unref();
        a.insert(*x);
        proof {
            assert(it.seq().take(it.index() + 1).unref() =~= before.push(*x));
            lemma_to_set_push(before, *x);
            assert(a@ =~= old(a)@.union(before.push(*x).to_set()));
        }
    }
}

/// The union of two sets.
pub fn union_ids(a: &HashSet<u64>, b: &HashSet<u64>) -> (r: HashSet<u64>)
    ensures
        r@ == a@.union(b@),
{
    let mut r = copy_ids(a);
    extend_ids(&mut r, b);
    r
}

/// The elements of `a` that are (`keep_common`) or are not in `b`.
fn filter_ids(a: &HashSet<u64>, b: &HashSet<u64>, keep_common: bool) -> (r: HashSet<u64>)
    ensures
        keep_common ==> r@ == a@.intersect(b@),
        !keep_common ==> r@ == a@.difference(b@),
{
    let mut r: HashSet<u64> = HashSet::new();
    for x in it: a.iter()
        invariant
            keep_common ==> r@ == it.seq().take(it.index() as int).unref().to_set().intersect(b@),
            !keep_common ==> r@ == it.seq().take(it.index() as int).unref().to_set().difference(b@),
            it.seq().unref().to_set() == a@,
            it.seq().take(it.seq().len() as int) == it.seq(),
    {
        let ghost before = it.seq().take(it.index() as int).unref();
        let v = *x;
        if b.contains(&v) == keep_common {
            r.insert(v);
        }
        proof {
            assert(it.seq().take(it.index() + 1).unref() =~= before.push(v));
            lemma_to_set_push(before, v);
            if keep_common {
                assert(r@ =~= before.push(v).to_set().intersect(b@));
            } else {
                assert(r@ =~= before.push(v).to_set().difference(b@));
            }
        }
    }
    r
}

/// The intersection of two sets.
pub fn intersect_ids(a: &HashSet<u64>, b: &HashSet<u64>) -> (r: HashSet<u64>)
    ensures
        r@ == a@.intersect(b@),
{
    filter_ids(a, b, true)
}

/// The elements of `a` not in `b`.
pub fn difference_ids(a: &HashSet<u64>, b: &HashSet<u64>) -> (r: HashSet<u64>)
    ensures
        r@ == a@.difference(b@),
{
    filter_ids(a, b, false)
}

pub proof fn lemma_to_set_push(s: Seq<u64>, x: u64)
    ensures
        s.push(x).to_set() == s.to_set().insert(x),
{
    assert forall|y: u64| #[trigger] s.push(x).to_set().contains(y) <==> s.to_set().insert(x).contains(y) by {
        if y == x {
            assert(s.push(x)[s.len() as int] == x);
        } else if s.push(x).contains(y) {
            let i = choose|i: int| 0 <= i < s.push(x).len() && s.push(x)[i] == y;
            assert(s[i] == y);
        } else if s.contains(y) {
            let i = choose|i: int| 0 <= i < s.len() && s[i] == y;
            assert(s.push(x)[i] == y);
        }
    }
    assert(s.push(x).to_set() =~= s.to_set().insert(x));
}

} // verus!
