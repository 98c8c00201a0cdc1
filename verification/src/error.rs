//! The host-visible error taxonomy and the error channel.
//!
//! Errors raised by the interpreter's diagnostic machinery arrive through the
//! error callback ([`bash_error`]), are classified, and are held in a
//! single-slot mailbox inside the [`Shell`] until the next
//! [`last_error`] / [`ok_or_error`] call consumes them.  Errors raised inside
//! a forked subshell arrive through the shared slot instead and are pulled
//! from it first.

use vstd::prelude::*;
use vstd::string::StrSliceExecFns;
use vstd::string::StringExecFns;

use crate::shell::Shell;
use crate::shell::ShellView;
use crate::status::ExecStatus;
use crate::text::strip_prefix;
use crate::text::strip_prefix_spec;

verus! {

/// A structured error recovered from the interpreter or raised by a builtin.
#[derive(Debug)]
pub enum Error {
    /// A generic internal error.
    Base(String),
    /// A builtin explicitly rejected its arguments; user-facing, printed
    /// prefixed with the command name.
    Builtin(String),
    /// An error that should propagate without the "command failed" framing.
    Bail(String),
    /// An interpreter failure correlated with a nonzero OS error code.
    IO(i32, String),
}

/// The mathematical shape of an [`Error`]: the same variants over character
/// sequences.
pub enum ErrorV {
    Base(Seq<char>),
    Builtin(Seq<char>),
    Bail(Seq<char>),
    IO(i32, Seq<char>),
}

impl View for Error {
    type V = ErrorV;

    open spec fn view(&self) -> ErrorV {
        match self {
            Error::Base(s) => ErrorV::Base(s@),
            Error::Builtin(s) => ErrorV::Builtin(s@),
            Error::Bail(s) => ErrorV::Bail(s@),
            Error::IO(n, s) => ErrorV::IO(*n, s@),
        }
    }
}

impl DeepView for Error {
    type V = ErrorV;

    open spec fn deep_view(&self) -> ErrorV {
        self.view()
    }
}

impl ErrorV {
    /// The bare message carried by an error.
    pub open spec fn message(self) -> Seq<char> {
        match self {
            ErrorV::Base(s) => s,
            ErrorV::Builtin(s) => s,
            ErrorV::Bail(s) => s,
            ErrorV::IO(_, s) => s,
        }
    }
}

impl Error {
    /// A generic error carrying `msg`.
    pub fn new(msg: &str) -> (r: Error)
        ensures
            r@ == ErrorV::Base(msg@),
    {
        Error::Base(msg.to_owned())
    }

    /// The bare message carried by this error.
    pub fn message(&self) -> (r: String)
        ensures
            r@ == self@.message(),
    {
        match self {
            Error::Base(s) => s.clone(),
            Error::Builtin(s) => s.clone(),
            Error::Bail(s) => s.clone(),
            Error::IO(_, s) => s.clone(),
        }
    }
}

impl Clone for Error {
    fn clone(&self) -> (r: Self)
        ensures
            r@ == self@,
    {
        match self {
            Error::Base(s) => Error::Base(s.clone()),
            Error::Builtin(s) => Error::Builtin(s.clone()),
            Error::Bail(s) => Error::Bail(s.clone()),
            Error::IO(n, s) => Error::IO(*n, s.clone()),
        }
    }
}

/// How the error callback classifies a stripped, nonempty message: an OS
/// error when the last OS error code was nonzero, a generic error otherwise.
pub open spec fn classify(msg: Seq<char>, os_errno: i32) -> ErrorV {
    if os_errno != 0 {
        ErrorV::IO(os_errno, msg)
    } else {
        ErrorV::Base(msg)
    }
}

/// The prefix the interpreter puts in front of its error messages.
pub open spec fn name_prefix(name: Seq<char>) -> Seq<char> {
    name + ": "@
}

/// An interpreter message with the shell-name prefix removed, if present.
pub open spec fn stripped(msg: Seq<char>, name: Seq<char>) -> Seq<char> {
    strip_prefix_spec(msg, name_prefix(name))
}

/// The state change the hard-error callback makes: strip the name prefix,
/// classify what is left, and store it in the thread-local slot, overwriting
/// any unconsumed previous error.  An empty message changes nothing.
pub open spec fn error_raised(v: ShellView, msg: Seq<char>, os_errno: i32) -> ShellView {
    let m = stripped(msg, v.name);
    if m.len() == 0 {
        v
    } else {
        ShellView { last_error: Some(classify(m, os_errno)), ..v }
    }
}

/// The interpreter's hard-error callback: the entry point its diagnostic
/// machinery reports fatal conditions through.
pub fn bash_error(sh: &mut Shell, msg: &String, os_errno: i32)
    ensures
        final(sh)@ == error_raised(old(sh)@, msg@, os_errno),
{
    let prefix = sh.name.clone().concat(": ");
    let m: String = match strip_prefix(msg, &prefix) {
        Some(t) => t,
        None => msg.clone(),
    };
    proof {
        assert(m@ == stripped(msg@, old(sh)@.name));
    }
    if m.as_str().unicode_len() > 0 {
        let e = if os_errno != 0 {
            Error::IO(os_errno, m)
        } else {
            Error::Base(m)
        };
        sh.last_error = Some(e);
        proof {
            assert(sh@ =~= (ShellView {
                last_error: Some(classify(stripped(msg@, old(sh)@.name), os_errno)),
                ..old(sh)@
            }));
        }
    } else {
        proof {
            assert(sh@ =~= old(sh)@);
        }
    }
}

/// The interpreter's warning callback: warnings only get logged to the
/// diagnostic sink and never enter the error channel.
pub fn bash_warning(sh: &mut Shell, msg: &String)
    ensures
        final(sh)@ == (ShellView { diag: old(sh)@.diag.push(msg@), ..old(sh)@ }),
{
    sh.diag.push(msg.clone());
    proof {
        assert(sh@.diag =~= old(sh)@.diag.push(msg@));
        assert(sh@ =~= (ShellView { diag: old(sh)@.diag.push(msg@), ..old(sh)@ }));
    }
}

/// The state after a pending shared-slot message has been pulled into the
/// thread-local slot: the two sources are complementary, and the shared one
/// wins because a subshell error always postdates whatever the slot held.
pub open spec fn shm_drained(v: ShellView) -> ShellView {
    match v.shm {
        Some(m) => ShellView { shm: None, ..error_raised(v, m, 0) },
        None => v,
    }
}

/// The error the channel would deliver next: the shared slot first, the
/// thread-local slot otherwise.
pub open spec fn channel_pending(v: ShellView) -> Option<ErrorV> {
    shm_drained(v).last_error
}

/// The state after the channel has been consumed: both slots empty, all
/// other state untouched.
pub open spec fn channel_drained(v: ShellView) -> ShellView {
    ShellView { last_error: None, shm: None, ..v }
}

/// Retrieve the most recent interpreter error, if any, consuming it.  A
/// pending subshell error in the shared slot is pulled first.
pub fn last_error(sh: &mut Shell) -> (r: Option<Error>)
    ensures
        r.deep_view() == channel_pending(old(sh)@),
        final(sh)@ == channel_drained(old(sh)@),
{
    sh.raise_shm_error();
    let r = sh.last_error.take();
    proof {
        assert(sh@ =~= channel_drained(old(sh)@));
    }
    r
}

/// The call-site idiom after any interpreter-invoking operation: the most
/// recent error if one exists, success otherwise.
pub fn ok_or_error(sh: &mut Shell) -> (r: Result<ExecStatus, Error>)
    ensures
        final(sh)@ == channel_drained(old(sh)@),
        match r {
            Ok(st) => channel_pending(old(sh)@) is None && st == ExecStatus::Success,
            Err(e) => channel_pending(old(sh)@) == Some(e@),
        },
{
    match last_error(sh) {
        None => Ok(ExecStatus::Success),
        Some(e) => Err(e),
    }
}

/// Error-channel single-slot law: starting from a channel with nothing
/// pending, an interpreter call that raises no error yields `Success` from
/// `ok_or_error`, and a second call that raises an error yields exactly that
/// call's error — never a stale one.
pub proof fn lemma_error_channel_single_slot(v0: ShellView, msg: Seq<char>, os_errno: i32)
    requires
        channel_pending(v0) is None,
        stripped(msg, v0.name).len() > 0,
    ensures
        channel_drained(v0).shm is None,
        channel_pending(channel_drained(v0)) is None,
        channel_pending(error_raised(channel_drained(v0), msg, os_errno)) == Some(
            classify(stripped(msg, v0.name), os_errno),
        ),
{
    let v1 = channel_drained(v0);
    let v2 = error_raised(v1, msg, os_errno);
    assert(v2.shm is None);
    assert(v2.last_error == Some(classify(stripped(msg, v0.name), os_errno)));
}

} // verus!
