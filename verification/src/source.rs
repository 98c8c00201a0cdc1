//! The result protocol around evaluating interpreter source.  Running the
//! code is the interpreter's own work; what the library owns is how its
//! outcome is judged: errors surface exclusively via the error channel and
//! take precedence, and only then does the returned integer status count,
//! with a plain failure reported for a nonzero status that produced no more
//! descriptive error.

use vstd::prelude::*;
use vstd::string::StringExecFns;

use crate::error::channel_drained;
use crate::error::channel_pending;
use crate::error::ok_or_error;
use crate::error::Error;
use crate::error::ErrorV;
use crate::shell::Shell;
use crate::status::ExecStatus;

verus! {

/// Judge the outcome of evaluating a source string that the interpreter
/// returned `ret` for: a channel error wins, then a nonzero status fails.
pub fn string_result(sh: &mut Shell, ret: i32) -> (r: Result<ExecStatus, Error>)
    ensures
        final(sh)@ == channel_drained(old(sh)@),
        match channel_pending(old(sh)@) {
            Some(ev) => (match r {
                Err(e) => e@ == ev,
                Ok(_) => false,
            }),
            None => if ret == 0 {
                r == Ok::<ExecStatus, Error>(ExecStatus::Success)
            } else {
                (match r {
                    Err(e) => e@ == ErrorV::Base("failed sourcing string"@),
                    Ok(_) => false,
                })
            },
        },
{
    match ok_or_error(sh) {
        Err(e) => Err(e),
        Ok(status) => if ret == 0 {
            Ok(status)
        } else {
            Err(Error::Base("failed sourcing string".to_owned()))
        },
    }
}

/// Judge the outcome of sourcing a file that the interpreter returned
/// `ret` for: a channel error wins, then a nonzero status fails naming the
/// path.
pub fn file_result(sh: &mut Shell, path: &str, ret: i32) -> (r: Result<ExecStatus, Error>)
    ensures
        final(sh)@ == channel_drained(old(sh)@),
        match channel_pending(old(sh)@) {
            Some(ev) => (match r {
                Err(e) => e@ == ev,
                Ok(_) => false,
            }),
            None => if ret == 0 {
                r == Ok::<ExecStatus, Error>(ExecStatus::Success)
            } else {
                (match r {
                    Err(e) => e@ == ErrorV::Base("failed sourcing: "@ + path@),
                    Ok(_) => false,
                })
            },
        },
{
    match ok_or_error(sh) {
        Err(e) => Err(e),
        Ok(status) => if ret == 0 {
            Ok(status)
        } else {
            let mut m = "failed sourcing: ".to_owned();
            m.append(path);
            Err(Error::Base(m))
        },
    }
}

} // verus!
