//! The `ver_rs` builtin's computation: separator substitution on package
//! version strings.  Printing the result is console work and stays outside
//! the library.

use vstd::prelude::*;
use vstd::string::StringExecFns;

use crate::builtins::ver_cut::concat_fields;
use crate::error::Error;
use crate::error::ErrorV;
use crate::text::dec_str;
use crate::text::u64_to_string;
use crate::version::parse_range;
use crate::version::range_spec;
use crate::version::version_split;
use crate::version::version_split_spec;

verus! {

/// The split version with the separator runs numbered `start..=end`
/// replaced by `sep`: separator `n` stands at index `2 * n` of the split.
pub open spec fn seps_replaced(
    parts: Seq<Seq<char>>,
    start: int,
    end: int,
    sep: Seq<char>,
) -> Seq<Seq<char>> {
    Seq::new(
        parts.len(),
        |i: int|
            if i % 2 == 0 && 2 * start <= i && i <= 2 * end {
                sep
            } else {
                parts[i]
            },
    )
}

/// The split version after the first `k` range/separator pairs of the
/// argument list have been applied in order; the first malformed range
/// aborts the walk with its error.
pub open spec fn spec_rs_applied(
    parts: Seq<Seq<char>>,
    args: Seq<Seq<char>>,
    k: int,
) -> Result<Seq<Seq<char>>, ErrorV>
    decreases k,
{
    if k <= 0 {
        Ok(parts)
    } else {
        match spec_rs_applied(parts, args, k - 1) {
            Err(e) => Err(e),
            Ok(ps) => match range_spec(args[2 * (k - 1)], ps.len() as int / 2) {
                None => Err(ErrorV::Base("invalid range: "@ + args[2 * (k - 1)])),
                Some((s, e)) => Ok(seps_replaced(ps, s, e, args[2 * (k - 1) + 1])),
            },
        }
    }
}

/// What `ver_rs` outputs: an even number of arguments reads the version
/// from `PV`, an odd number takes it from the last argument; the preceding
/// arguments pair up as ranges and replacement separators, applied in
/// order.
pub open spec fn spec_ver_rs(args: Seq<Seq<char>>, pv: Option<Seq<char>>) -> Result<
    Seq<char>,
    ErrorV,
> {
    if args.len() < 2 {
        Err(ErrorV::Base("requires 2 or more args, got "@ + dec_str(args.len() as int)))
    } else {
        let ver = if args.len() % 2 == 0 {
            match pv {
                Some(p) => p,
                None => Seq::empty(),
            }
        } else {
            args.last()
        };
        let pair_args = if args.len() % 2 == 0 {
            args
        } else {
            args.drop_last()
        };
        let parts = version_split_spec(ver);
        match spec_rs_applied(parts, pair_args, pair_args.len() as int / 2) {
            Err(e) => Err(e),
            Ok(ps) => Ok(concat_fields(ps)),
        }
    }
}

/// Apply one range/separator pair to a split version: the separator runs
/// the range selects are replaced, indexes beyond the split are ignored,
/// and a malformed range changes nothing and reports the error.
#[verifier::loop_isolation(false)]
#[verifier::rlimit(20)]
fn apply_pair(parts: &mut Vec<String>, range: &String, sep: &String) -> (r: Result<(), Error>)
    requires
        old(parts).len() >= 1,
    ensures
        final(parts).len() == old(parts).len(),
        match (r, range_spec(range@, old(parts).deep_view().len() as int / 2)) {
            (Err(e), None) => e@ == ErrorV::Base("invalid range: "@ + range@)
                && final(parts).deep_view() == old(parts).deep_view(),
            (Ok(_), Some((s, e))) => final(parts).deep_view() == seps_replaced(
                old(parts).deep_view(),
                s,
                e,
                sep@,
            ),
            _ => false,
        },
{
    let len = parts.len();
    let (start, end) = match parse_range(range.as_str(), (len as u64) / 2) {
        Some(p) => p,
        None => {
            let mut m = "invalid range: ".to_owned();
            m.append(range.as_str());
            return Err(Error::Base(m));
        },
    };
    let ghost pre = parts.deep_view();
    let mut t = start;
    proof {
        assert(parts.deep_view() =~= seps_replaced(pre, start as int, t as int - 1, sep@));
    }
    while t <= end && t <= ((len - 1) / 2) as u64
        invariant
            parts.len() == len,
            start <= t,
            start > end ==> t == start,
            start > end || t as int <= end as int + 1,
            parts.deep_view() == seps_replaced(pre, start as int, t as int - 1, sep@),
        decreases end + 1 - t,
    {
        let idx = (t as usize) + (t as usize);
        proof {
            assert(idx < parts.len());
        }
        let ghost before = parts.deep_view();
        parts.remove(idx);
        parts.insert(idx, sep.clone());
        proof {
            assert(parts.deep_view() =~= before.update(idx as int, sep@));
            assert(before.update(idx as int, sep@) =~= seps_replaced(
                pre,
                start as int,
                t as int,
                sep@,
            ));
        }
        t = t + 1;
    }
    proof {
        let si = start as int;
        let ti = t as int;
        let ei = end as int;
        let li = len as int;
        if start > end {
            assert forall|i: int| 0 <= i < li implies seps_replaced(pre, si, ti - 1, sep@)[i]
                == seps_replaced(pre, si, ei, sep@)[i] by {}
            assert(seps_replaced(pre, si, ti - 1, sep@) =~= seps_replaced(pre, si, ei, sep@));
        } else if ti <= ei {
            // the walk stopped at the end of the split: every remaining
            // index lies outside it
            assert(2 * ti >= li);
            assert forall|i: int| 0 <= i < li implies seps_replaced(pre, si, ti - 1, sep@)[i]
                == seps_replaced(pre, si, ei, sep@)[i] by {
                if i % 2 == 0 && 2 * si <= i && i <= 2 * ei && !(i <= 2 * (ti - 1)) {
                    assert(i != 2 * ti - 1);
                    assert(i >= 2 * ti);
                    assert(false);
                }
            }
            assert(seps_replaced(pre, si, ti - 1, sep@) =~= seps_replaced(pre, si, ei, sep@));
        } else {
            assert(ti - 1 == ei);
        }
        assert(parts.deep_view() =~= seps_replaced(pre, start as int, end as int, sep@));
    }
    Ok(())
}

/// Perform separator substitution on a package version string.
#[verifier::loop_isolation(false)]
#[verifier::rlimit(20)]
pub fn ver_rs(args: &Vec<String>, pv: &Option<String>) -> (r: Result<String, Error>)
    ensures
        match (r, spec_ver_rs(args.deep_view(), pv.deep_view())) {
            (Ok(out), Ok(spec_out)) => out@ == spec_out,
            (Err(e), Err(ev)) => e@ == ev,
            _ => false,
        },
{
    let n = args.len();
    if n < 2 {
        let mut m = "requires 2 or more args, got ".to_owned();
        m.append(u64_to_string(n as u64).as_str());
        proof {
            assert(n as u64 as int == args.deep_view().len());
        }
        return Err(Error::Base(m));
    }
    proof {
        assert forall|j: int| 0 <= j < n implies args.deep_view()[j] == args[j]@ by {}
    }
    let even = n % 2 == 0;
    let empty = String::new();
    let ver: &String = if even {
        match pv {
            Some(p) => p,
            None => &empty,
        }
    } else {
        &args[n - 1]
    };
    let ghost pair_args = if even {
        args.deep_view()
    } else {
        args.deep_view().drop_last()
    };
    let pair_count = if even {
        n / 2
    } else {
        (n - 1) / 2
    };
    proof {
        assert(pair_args.len() as int / 2 == pair_count);
        assert forall|j: int| 0 <= j < pair_args.len() implies pair_args[j]
            == args.deep_view()[j] by {}
    }
    let mut parts = version_split(ver.as_str());
    let ghost parts0 = parts.deep_view();
    proof {
        let dv = args.deep_view();
        assert(dv.len() == n);
        if !even {
            assert(dv.last() == dv[n - 1]);
        }
        assert(ver@ == (if dv.len() % 2 == 0 {
            match pv.deep_view() {
                Some(p) => p,
                None => Seq::<char>::empty(),
            }
        } else {
            dv.last()
        }));
        assert(pair_args == (if dv.len() % 2 == 0 {
            dv
        } else {
            dv.drop_last()
        }));
        assert(parts0 == version_split_spec(ver@));
        assert(parts0.len() >= 1);
    }
    for k in 0..pair_count
        invariant
            n == args.len(),
            pair_count * 2 <= n,
            pair_args.len() as int / 2 == pair_count,
            forall|j: int| 0 <= j < pair_args.len() ==> pair_args[j] == args.deep_view()[j],
            spec_rs_applied(parts0, pair_args, k as int) == Ok::<_, ErrorV>(parts.deep_view()),
            parts.len() == parts0.len(),
            parts0.len() >= 1,
    {
        let range = &args[2 * k];
        let sep = &args[2 * k + 1];
        proof {
            assert(range@ == pair_args[2 * (k as int)]);
            assert(sep@ == pair_args[2 * (k as int) + 1]);
        }
        match apply_pair(&mut parts, range, sep) {
            Ok(_) => {
                proof {
                    assert(spec_rs_applied(parts0, pair_args, k + 1) == Ok::<_, ErrorV>(
                        parts.deep_view(),
                    ));
                }
            },
            Err(e) => {
                proof {
                    assert(spec_rs_applied(parts0, pair_args, k + 1) == Err::<Seq<Seq<char>>, _>(
                        ErrorV::Base("invalid range: "@ + range@),
                    ));
                    assert(spec_rs_applied(parts0, pair_args, pair_count as int) == Err::<
                        Seq<Seq<char>>,
                        _,
                    >(ErrorV::Base("invalid range: "@ + range@))) by {
                        lemma_rs_error_sticks(parts0, pair_args, k + 1, pair_count as int);
                    }
                }
                return Err(e);
            },
        }
    }

    let mut out = String::new();
    let ghost fields = parts.deep_view();
    let m = parts.len();
    for i in 0..m
        invariant
            m == parts.len(),
            fields == parts.deep_view(),
            out@ == concat_fields(fields.take(i as int)),
    {
        out.append(parts[i].as_str());
        proof {
            assert(fields.take(i + 1).drop_last() =~= fields.take(i as int));
            assert(fields.take(i + 1).last() == fields[i as int]);
            assert(fields[i as int] == parts[i as int]@);
        }
    }
    proof {
        assert(fields.take(m as int) =~= fields);
    }
    Ok(out)
}

/// Once a pair's range is malformed, applying further pairs keeps the same
/// error.
proof fn lemma_rs_error_sticks(parts: Seq<Seq<char>>, args: Seq<Seq<char>>, k: int, upto: int)
    requires
        0 < k <= upto,
        spec_rs_applied(parts, args, k) is Err,
    ensures
        spec_rs_applied(parts, args, upto) == spec_rs_applied(parts, args, k),
    decreases upto - k,
{
    if k < upto {
        lemma_rs_error_sticks(parts, args, k + 1, upto);
    }
}

} // verus!
