//! Introspection of the interpreter's two shell-option tables.

use vstd::prelude::*;

use crate::names::clone_names;
use crate::shell::Shell;

verus! {

/// The set of enabled shell options used with the `set` builtin.
pub fn set_opts(sh: &Shell) -> (r: Vec<String>)
    ensures
        r.deep_view() == sh@.set_on,
{
    clone_names(&sh.set_on)
}

/// The set of enabled shell options used with the `shopt` builtin.
pub fn shopt_opts(sh: &Shell) -> (r: Vec<String>)
    ensures
        r.deep_view() == sh@.shopt_on,
{
    clone_names(&sh.shopt_on)
}

/// The set of all shell options the `set` builtin knows.
pub fn all_set_opts(sh: &Shell) -> (r: Vec<String>)
    ensures
        r.deep_view() == sh@.set_known,
{
    clone_names(&sh.set_known)
}

/// The set of all shell options the `shopt` builtin knows.
pub fn all_shopt_opts(sh: &Shell) -> (r: Vec<String>)
    ensures
        r.deep_view() == sh@.shopt_known,
{
    clone_names(&sh.shopt_known)
}

} // verus!
