//! The `ver_cut` builtin's computation: the substring of a package version
//! string selected by a component range.  Printing the result is console
//! work and stays outside the library.

use vstd::prelude::*;
use vstd::string::StringExecFns;

use crate::error::Error;
use crate::error::ErrorV;
use crate::text::dec_str;
use crate::text::u64_to_string;
use crate::version::parse_range;
use crate::version::range_spec;
use crate::version::version_split;
use crate::version::version_split_spec;

verus! {

/// The runs of a split version string concatenated back together.
pub open spec fn concat_fields(fs: Seq<Seq<char>>) -> Seq<char>
    decreases fs.len(),
{
    if fs.len() == 0 {
        Seq::empty()
    } else {
        concat_fields(fs.drop_last()) + fs.last()
    }
}

/// What `ver_cut` outputs: with one argument the version bound to `PV` is
/// cut, with two the second argument is; the range selects components, and
/// the slice indices are clamped to the split.  A malformed or descending
/// range and any other argument shape are errors.
pub open spec fn spec_ver_cut(args: Seq<Seq<char>>, pv: Option<Seq<char>>) -> Result<
    Seq<char>,
    ErrorV,
> {
    if args.len() != 1 && args.len() != 2 {
        Err(ErrorV::Base("requires 1 or 2 args, got "@ + dec_str(args.len() as int)))
    } else {
        let range = args[0];
        let ver = if args.len() == 2 {
            args[1]
        } else {
            match pv {
                Some(p) => p,
                None => Seq::empty(),
            }
        };
        let parts = version_split_spec(ver);
        let max_idx = parts.len() as int;
        match range_spec(range, max_idx / 2) {
            None => Err(ErrorV::Base("invalid range: "@ + range)),
            Some((start, end)) => if start > end {
                Err(ErrorV::Base("invalid range: "@ + range))
            } else {
                let si = if start == 0 {
                    0
                } else if start * 2 - 1 < max_idx {
                    start * 2 - 1
                } else {
                    max_idx
                };
                let ei = if end * 2 < max_idx {
                    end * 2
                } else {
                    max_idx
                };
                Ok(concat_fields(parts.subrange(si, ei)))
            },
        }
    }
}

/// Output a substring of a package version string selected by the range
/// argument.
pub fn ver_cut(args: &Vec<String>, pv: &Option<String>) -> (r: Result<String, Error>)
    ensures
        match (r, spec_ver_cut(args.deep_view(), pv.deep_view())) {
            (Ok(out), Ok(spec_out)) => out@ == spec_out,
            (Err(e), Err(ev)) => e@ == ev,
            _ => false,
        },
{
    let n = args.len();
    if n != 1 && n != 2 {
        let mut m = "requires 1 or 2 args, got ".to_owned();
        m.append(u64_to_string(n as u64).as_str());
        proof {
            assert(n as u64 as int == args.deep_view().len());
        }
        return Err(Error::Base(m));
    }
    proof {
        assert forall|j: int| 0 <= j < n implies args.deep_view()[j] == args[j]@ by {}
    }
    let empty = String::new();
    let ver: &String = if n == 2 {
        &args[1]
    } else {
        match pv {
            Some(p) => p,
            None => &empty,
        }
    };
    let range = &args[0];
    let parts = version_split(ver.as_str());
    let max_idx = parts.len();
    let (start, end) = match parse_range(range.as_str(), (max_idx as u64) / 2) {
        Some(p) => p,
        None => {
            let mut m = "invalid range: ".to_owned();
            m.append(range.as_str());
            return Err(Error::Base(m));
        },
    };
    if start > end {
        let mut m = "invalid range: ".to_owned();
        m.append(range.as_str());
        return Err(Error::Base(m));
    }
    let si: usize = if start == 0 {
        0
    } else if start <= (max_idx as u64) {
        let s = start as usize;
        if s - 1 <= max_idx - s {
            (s - 1) + s
        } else {
            max_idx
        }
    } else {
        max_idx
    };
    let ei: usize = if end <= (max_idx as u64) / 2 {
        let e = end as usize;
        e + e
    } else {
        max_idx
    };
    proof {
        let max = max_idx as int;
        assert(si as int == if start == 0 {
            0int
        } else if start * 2 - 1 < max {
            start * 2 - 1
        } else {
            max
        });
        assert(ei as int == if end * 2 < max {
            end * 2
        } else {
            max
        });
        assert(si <= ei);
    }
    let mut out = String::new();
    let ghost fields = parts.deep_view();
    let mut i = si;
    while i < ei
        invariant
            si <= i <= ei,
            ei <= parts.len(),
            fields == parts.deep_view(),
            out@ == concat_fields(fields.subrange(si as int, i as int)),
        decreases ei - i,
    {
        out.append(parts[i].as_str());
        proof {
            assert(fields.subrange(si as int, i + 1).drop_last() =~= fields.subrange(
                si as int,
                i as int,
            ));
            assert(fields.subrange(si as int, i + 1).last() == fields[i as int]);
            assert(fields[i as int] == parts[i as int]@);
        }
        i = i + 1;
    }
    proof {
        if si == ei {
            assert(fields.subrange(si as int, si as int) =~= Seq::<Seq<char>>::empty());
        }
    }
    Ok(out)
}

} // verus!
