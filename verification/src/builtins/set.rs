//! Enabling and disabling options of the `set` builtin's table.

use vstd::prelude::*;
use vstd::string::StringExecFns;

use crate::error::Error;
use crate::error::ErrorV;
use crate::options::apply_disable;
use crate::options::apply_enable;
use crate::options::first_unknown;
use crate::options::first_unknown_index;
use crate::options::opts_disabled_list;
use crate::options::opts_enabled_list;
use crate::shell::Shell;
use crate::shell::ShellView;
use crate::status::ExecStatus;

verus! {

/// The diagnostic the `set` builtin produces for an unknown option name.
pub open spec fn invalid_opt_msg(opt: Seq<char>) -> Seq<char> {
    "set: "@ + opt + ": invalid option name"@
}

/// Enable the named `set` options, in order, stopping at the first unknown
/// name, which is reported as the error.
pub fn enable(sh: &mut Shell, opts: &Vec<String>) -> (r: Result<ExecStatus, Error>)
    ensures
        ({
            let k = first_unknown(old(sh)@.set_known, opts.deep_view());
            &&& final(sh)@ == (ShellView {
                set_on: opts_enabled_list(old(sh)@.set_on, opts.deep_view().take(k)),
                ..old(sh)@
            })
            &&& match r {
                Ok(st) => k == opts.deep_view().len() && st == ExecStatus::Success,
                Err(e) => k < opts.deep_view().len() && e@ == ErrorV::Base(
                    invalid_opt_msg(opts.deep_view()[k]),
                ),
            }
        }),
{
    let k = first_unknown_index(&sh.set_known, opts);
    apply_enable(&mut sh.set_on, opts, k);
    proof {
        assert(sh@ =~= (ShellView {
            set_on: opts_enabled_list(
                old(sh)@.set_on,
                opts.deep_view().take(k as int),
            ),
            ..old(sh)@
        }));
    }
    if k < opts.len() {
        let mut m = "set: ".to_owned();
        m.append(opts[k].as_str());
        m.append(": invalid option name");
        proof {
            assert(m@ == invalid_opt_msg(opts.deep_view()[k as int]));
        }
        Err(Error::Base(m))
    } else {
        Ok(ExecStatus::Success)
    }
}

/// Disable the named `set` options, in order, stopping at the first unknown
/// name, which is reported as the error.
pub fn disable(sh: &mut Shell, opts: &Vec<String>) -> (r: Result<ExecStatus, Error>)
    ensures
        ({
            let k = first_unknown(old(sh)@.set_known, opts.deep_view());
            &&& final(sh)@ == (ShellView {
                set_on: opts_disabled_list(old(sh)@.set_on, opts.deep_view().take(k)),
                ..old(sh)@
            })
            &&& match r {
                Ok(st) => k == opts.deep_view().len() && st == ExecStatus::Success,
                Err(e) => k < opts.deep_view().len() && e@ == ErrorV::Base(
                    invalid_opt_msg(opts.deep_view()[k]),
                ),
            }
        }),
{
    let k = first_unknown_index(&sh.set_known, opts);
    apply_disable(&mut sh.set_on, opts, k);
    proof {
        assert(sh@ =~= (ShellView {
            set_on: opts_disabled_list(
                old(sh)@.set_on,
                opts.deep_view().take(k as int),
            ),
            ..old(sh)@
        }));
    }
    if k < opts.len() {
        let mut m = "set: ".to_owned();
        m.append(opts[k].as_str());
        m.append(": invalid option name");
        proof {
            assert(m@ == invalid_opt_msg(opts.deep_view()[k as int]));
        }
        Err(Error::Base(m))
    } else {
        Ok(ExecStatus::Success)
    }
}

} // verus!
