//! Shared machinery for the two shell-option tables: which options a batch
//! enables or disables, and where the first unknown name of a batch sits.

use vstd::prelude::*;

use crate::names::add_name;
use crate::names::contains_name;
use crate::names::remove_name;
use crate::names::without;

verus! {

/// The enabled-option list after enabling each name of `opts` in turn; a
/// name already present is left alone.
pub open spec fn opts_enabled_list(on: Seq<Seq<char>>, opts: Seq<Seq<char>>) -> Seq<Seq<char>>
    decreases opts.len(),
{
    if opts.len() == 0 {
        on
    } else {
        let prev = opts_enabled_list(on, opts.drop_last());
        if prev.contains(opts.last()) {
            prev
        } else {
            prev.push(opts.last())
        }
    }
}

/// The enabled-option list after disabling each name of `opts` in turn.
pub open spec fn opts_disabled_list(on: Seq<Seq<char>>, opts: Seq<Seq<char>>) -> Seq<Seq<char>>
    decreases opts.len(),
{
    if opts.len() == 0 {
        on
    } else {
        without(opts_disabled_list(on, opts.drop_last()), opts.last())
    }
}

/// The index of the first name of `opts` missing from `known`, or the length
/// of `opts` when every name is known.
pub open spec fn first_unknown(known: Seq<Seq<char>>, opts: Seq<Seq<char>>) -> int
    decreases opts.len(),
{
    if opts.len() == 0 {
        0
    } else if !known.contains(opts[0]) {
        0
    } else {
        1 + first_unknown(known, opts.drop_first())
    }
}

/// A first missing name at index `i` is what `first_unknown` returns.
pub proof fn lemma_first_unknown_at(known: Seq<Seq<char>>, opts: Seq<Seq<char>>, i: int)
    requires
        0 <= i < opts.len(),
        !known.contains(opts[i]),
        forall|j: int| 0 <= j < i ==> known.contains(#[trigger] opts[j]),
    ensures
        first_unknown(known, opts) == i,
    decreases i,
{
    if i > 0 {
        assert(known.contains(opts[0]));
        assert forall|j: int| 0 <= j < i - 1 implies known.contains(
            #[trigger] opts.drop_first()[j],
        ) by {
            assert(opts.drop_first()[j] == opts[j + 1]);
        }
        assert(opts.drop_first()[i - 1] == opts[i]);
        lemma_first_unknown_at(known, opts.drop_first(), i - 1);
    }
}

/// With every name known, `first_unknown` runs off the end.
pub proof fn lemma_first_unknown_all(known: Seq<Seq<char>>, opts: Seq<Seq<char>>)
    requires
        forall|j: int| 0 <= j < opts.len() ==> known.contains(#[trigger] opts[j]),
    ensures
        first_unknown(known, opts) == opts.len(),
    decreases opts.len(),
{
    if opts.len() > 0 {
        assert(known.contains(opts[0]));
        assert forall|j: int| 0 <= j < opts.drop_first().len() implies known.contains(
            #[trigger] opts.drop_first()[j],
        ) by {
            assert(opts.drop_first()[j] == opts[j + 1]);
        }
        lemma_first_unknown_all(known, opts.drop_first());
    }
}

/// Find the first name of `opts` that `known` does not hold.
pub fn first_unknown_index(known: &Vec<String>, opts: &Vec<String>) -> (k: usize)
    ensures
        k as int == first_unknown(known.deep_view(), opts.deep_view()),
        k <= opts.len(),
        forall|j: int| 0 <= j < k ==> known.deep_view().contains(#[trigger] opts.deep_view()[j]),
        k < opts.len() ==> !known.deep_view().contains(opts.deep_view()[k as int]),
{
    let n = opts.len();
    for i in 0..n
        invariant
            n == opts.len(),
            forall|j: int|
                0 <= j < i ==> known.deep_view().contains(#[trigger] opts.deep_view()[j]),
    {
        if !contains_name(known, &opts[i]) {
            proof {
                lemma_first_unknown_at(known.deep_view(), opts.deep_view(), i as int);
            }
            return i;
        }
        proof {
            assert(opts.deep_view()[i as int] == opts[i as int]@);
        }
    }
    proof {
        lemma_first_unknown_all(known.deep_view(), opts.deep_view());
    }
    n
}

/// Enable the first `k` names of `opts` in the enabled-option list.
pub fn apply_enable(on: &mut Vec<String>, opts: &Vec<String>, k: usize)
    requires
        k <= opts.len(),
    ensures
        final(on).deep_view() == opts_enabled_list(
            old(on).deep_view(),
            opts.deep_view().take(k as int),
        ),
{
    let ghost base = on.deep_view();
    for i in 0..k
        invariant
            k <= opts.len(),
            on.deep_view() == opts_enabled_list(base, opts.deep_view().take(i as int)),
    {
        add_name(on, &opts[i]);
        proof {
            assert(opts.deep_view().take(i + 1).drop_last() =~= opts.deep_view().take(i as int));
            assert(opts.deep_view().take(i + 1).last() == opts.deep_view()[i as int]);
            assert(opts[i as int]@ == opts.deep_view()[i as int]);
        }
    }
    proof {
        if k == 0 {
            assert(opts.deep_view().take(0) =~= Seq::<Seq<char>>::empty());
            assert(opts_enabled_list(base, opts.deep_view().take(0)) == base);
        }
    }
}

/// Disable the first `k` names of `opts` in the enabled-option list.
pub fn apply_disable(on: &mut Vec<String>, opts: &Vec<String>, k: usize)
    requires
        k <= opts.len(),
    ensures
        final(on).deep_view() == opts_disabled_list(
            old(on).deep_view(),
            opts.deep_view().take(k as int),
        ),
{
    let ghost base = on.deep_view();
    for i in 0..k
        invariant
            k <= opts.len(),
            on.deep_view() == opts_disabled_list(base, opts.deep_view().take(i as int)),
    {
        remove_name(on, &opts[i]);
        proof {
            assert(opts.deep_view().take(i + 1).drop_last() =~= opts.deep_view().take(i as int));
            assert(opts.deep_view().take(i + 1).last() == opts.deep_view()[i as int]);
            assert(opts[i as int]@ == opts.deep_view()[i as int]);
        }
    }
    proof {
        if k == 0 {
            assert(opts.deep_view().take(0) =~= Seq::<Seq<char>>::empty());
        }
    }
}

} // verus!
