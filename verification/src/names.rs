//! Small verified operations on lists of interpreter names (option names,
//! builtin names, variable names), shared by the rest of the library.

use vstd::prelude::*;

verus! {

/// The name sequence `s` with every occurrence of `n` removed.
pub open spec fn without(s: Seq<Seq<char>>, n: Seq<char>) -> Seq<Seq<char>>
    decreases s.len(),
{
    if s.len() == 0 {
        Seq::empty()
    } else {
        let rest = without(s.drop_last(), n);
        if s.last() == n {
            rest
        } else {
            rest.push(s.last())
        }
    }
}

/// Removing a name that does not occur leaves the sequence unchanged.
pub proof fn lemma_without_absent(s: Seq<Seq<char>>, n: Seq<char>)
    requires
        !s.contains(n),
    ensures
        without(s, n) == s,
    decreases s.len(),
{
    if s.len() > 0 {
        assert(s.contains(s.last())) by {
            assert(s[s.len() - 1] == s.last());
        }
        assert forall|i: int| 0 <= i < s.drop_last().len() implies s.drop_last()[i] != n by {
            assert(s[i] == s.drop_last()[i]);
        }
        assert(!s.drop_last().contains(n));
        lemma_without_absent(s.drop_last(), n);
        assert(without(s, n) =~= s);
    } else {
        assert(without(s, n) =~= s);
    }
}

/// Removing a name from a sequence that just had it pushed undoes the push.
pub proof fn lemma_without_push(s: Seq<Seq<char>>, n: Seq<char>)
    ensures
        without(s.push(n), n) == without(s, n),
{
    assert(s.push(n).drop_last() =~= s);
    assert(s.push(n).last() == n);
}

/// A copy of a name list, equal at the view level.
pub fn clone_names(v: &Vec<String>) -> (r: Vec<String>)
    ensures
        r.deep_view() == v.deep_view(),
{
    let r = v.clone();
    proof {
        assert(r.deep_view() =~= v.deep_view());
    }
    r
}

/// Whether `name` occurs in `v`.
pub fn contains_name(v: &Vec<String>, name: &String) -> (r: bool)
    ensures
        r == v.deep_view().contains(name@),
{
    let n = v.len();
    for i in 0..n
        invariant
            n == v.len(),
            forall|j: int| 0 <= j < i ==> v.deep_view()[j] != name@,
    {
        if v[i].eq(name) {
            assert(v.deep_view()[i as int] == name@);
            return true;
        }
    }
    false
}

/// Remove every occurrence of `name` from `v`.
pub fn remove_name(v: &mut Vec<String>, name: &String)
    ensures
        final(v).deep_view() == without(old(v).deep_view(), name@),
{
    let ghost orig = v.deep_view();
    let mut kept: Vec<String> = Vec::new();
    let n = v.len();
    for i in 0..n
        invariant
            n == v.len(),
            v.deep_view() == orig,
            kept.deep_view() == without(orig.take(i as int), name@),
    {
        proof {
            assert(orig.take(i + 1).drop_last() =~= orig.take(i as int));
            assert(orig.take(i + 1).last() == orig[i as int]);
        }
        if !v[i].eq(name) {
            let s = v[i].clone();
            assert(s@ == orig[i as int]);
            kept.push(s);
            assert(kept.deep_view() =~= without(orig.take(i + 1), name@));
        } else {
            assert(kept.deep_view() =~= without(orig.take(i + 1), name@));
        }
    }
    assert(orig.take(n as int) =~= orig);
    *v = kept;
}

/// Push `name` unless it is already present, so membership afterwards holds
/// and nothing else changes.
pub fn add_name(v: &mut Vec<String>, name: &String)
    ensures
        final(v).deep_view() == if old(v).deep_view().contains(name@) {
            old(v).deep_view()
        } else {
            old(v).deep_view().push(name@)
        },
{
    if !contains_name(v, name) {
        v.push(name.clone());
        assert(v.deep_view() =~= old(v).deep_view().push(name@));
    }
}

} // verus!

