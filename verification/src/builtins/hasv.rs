//! The `hasv` builtin: the same as `has`, but also prints the first
//! argument when it is found.

use vstd::prelude::*;

use crate::builtins::has::has;
use crate::builtins::has::spec_has;
use crate::error::Error;
use crate::error::ErrorV;
use crate::shell::Shell;
use crate::shell::ShellView;
use crate::status::ExecStatus;

verus! {

/// What `hasv` does: the `has` result, and on success the needle written
/// to standard output.
pub open spec fn spec_hasv(v: ShellView, args: Seq<Seq<char>>) -> (Result<
    ExecStatus,
    ErrorV,
>, ShellView) {
    let r = spec_has(args);
    if r == Ok::<ExecStatus, ErrorV>(ExecStatus::Success) {
        (r, (ShellView { out: v.out.push(args[0]), ..v }))
    } else {
        (r, v)
    }
}

/// The same as `has`, but also prints the first argument if found.
pub fn hasv(sh: &mut Shell, args: &Vec<String>) -> (r: Result<ExecStatus, Error>)
    ensures
        final(sh)@ == spec_hasv(old(sh)@, args.deep_view()).1,
        match (r, spec_hasv(old(sh)@, args.deep_view()).0) {
            (Ok(a), Ok(b)) => a == b,
            (Err(e), Err(ev)) => e@ == ev,
            _ => false,
        },
{
    match has(args) {
        Ok(ExecStatus::Success) => {
            let needle = args[0].clone();
            proof {
                assert(needle@ == args.deep_view()[0]);
            }
            sh.out.push(needle);
            proof {
                assert(sh@.out =~= old(sh)@.out.push(args.deep_view()[0]));
                assert(sh@ =~= (ShellView {
                    out: old(sh)@.out.push(args.deep_view()[0]),
                    ..old(sh)@
                }));
            }
            Ok(ExecStatus::Success)
        },
        other => other,
    }
}

} // verus!
