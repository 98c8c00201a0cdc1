//! The `has` builtin: reports whether its first argument appears among the
//! remaining ones.

use vstd::prelude::*;

use crate::error::Error;
use crate::error::ErrorV;
use crate::status::ExecStatus;

verus! {

/// What `has` returns: success when the first argument occurs among the
/// rest, an ordinary failure when it does not, and a usage error without
/// any argument.
pub open spec fn spec_has(args: Seq<Seq<char>>) -> Result<ExecStatus, ErrorV> {
    if args.len() == 0 {
        Err(ErrorV::Builtin("requires 1 or more args"@))
    } else if args.drop_first().contains(args[0]) {
        Ok(ExecStatus::Success)
    } else {
        Ok(ExecStatus::Failure(1))
    }
}

/// Returns success if the first argument is found in the list of subsequent
/// arguments, an ordinary failure otherwise.
pub fn has(args: &Vec<String>) -> (r: Result<ExecStatus, Error>)
    ensures
        match (r, spec_has(args.deep_view())) {
            (Ok(a), Ok(b)) => a == b,
            (Err(e), Err(ev)) => e@ == ev,
            _ => false,
        },
{
    if args.len() == 0 {
        return Err(Error::Builtin("requires 1 or more args".to_owned()));
    }
    let needle = &args[0];
    let n = args.len();
    for i in 1..n
        invariant
            n == args.len(),
            n > 0,
            needle@ == args.deep_view()[0],
            forall|j: int| 1 <= j < i ==> args.deep_view()[j] != needle@,
    {
        if args[i].eq(needle) {
            proof {
                assert(args.deep_view()[i as int] == needle@);
                assert(args.deep_view().drop_first()[i - 1] == args.deep_view()[i as int]);
            }
            return Ok(ExecStatus::Success);
        }
    }
    proof {
        assert forall|j: int| 0 <= j < args.deep_view().drop_first().len() implies args
            .deep_view()
            .drop_first()[j] != needle@ by {
            assert(args.deep_view().drop_first()[j] == args.deep_view()[j + 1]);
        }
        assert(!args.deep_view().drop_first().contains(needle@));
    }
    Ok(ExecStatus::Failure(1))
}

} // verus!
