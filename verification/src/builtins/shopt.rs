//! Enabling and disabling options of the `shopt` builtin's table.

use vstd::prelude::*;
use vstd::string::StringExecFns;

use crate::error::Error;
use crate::error::ErrorV;
use crate::options::apply_disable;
use crate::options::apply_enable;
use crate::options::first_unknown;
use crate::options::first_unknown_index;
use crate::options::opts_disabled_list;
use crate::options::opts_enabled_list;
use crate::shell::Shell;
use crate::shell::ShellView;
use crate::status::ExecStatus;

verus! {

/// The diagnostic the `shopt` builtin produces for an unknown option name.
pub open spec fn invalid_opt_msg(opt: Seq<char>) -> Seq<char> {
    "shopt: "@ + opt + ": invalid shell option name"@
}

/// Enable the named `shopt` options, in order, stopping at the first unknown
/// name, which is reported as the error.
pub fn enable(sh: &mut Shell, opts: &Vec<String>) -> (r: Result<ExecStatus, Error>)
    ensures
        ({
            let k = first_unknown(old(sh)@.shopt_known, opts.deep_view());
            &&& final(sh)@ == (ShellView {
                shopt_on: opts_enabled_list(old(sh)@.shopt_on, opts.deep_view().take(k)),
                ..old(sh)@
            })
            &&& match r {
                Ok(st) => k == opts.deep_view().len() && st == ExecStatus::Success,
                Err(e) => k < opts.deep_view().len() && e@ == ErrorV::Base(
                    invalid_opt_msg(opts.deep_view()[k]),
                ),
            }
        }),
{
    let k = first_unknown_index(&sh.shopt_known, opts);
    apply_enable(&mut sh.shopt_on, opts, k);
    proof {
        assert(sh@ =~= (ShellView {
            shopt_on: opts_enabled_list(
                old(sh)@.shopt_on,
                opts.deep_view().take(k as int),
            ),
            ..old(sh)@
        }));
    }
    if k < opts.len() {
        let mut m = "shopt: ".to_owned();
        m.append(opts[k].as_str());
        m.append(": invalid shell option name");
        proof {
            assert(m@ == invalid_opt_msg(opts.deep_view()[k as int]));
        }
        Err(Error::Base(m))
    } else {
        Ok(ExecStatus::Success)
    }
}

/// Disable the named `shopt` options, in order, stopping at the first unknown
/// name, which is reported as the error.
pub fn disable(sh: &mut Shell, opts: &Vec<String>) -> (r: Result<ExecStatus, Error>)
    ensures
        ({
            let k = first_unknown(old(sh)@.shopt_known, opts.deep_view());
            &&& final(sh)@ == (ShellView {
                shopt_on: opts_disabled_list(old(sh)@.shopt_on, opts.deep_view().take(k)),
                ..old(sh)@
            })
            &&& match r {
                Ok(st) => k == opts.deep_view().len() && st == ExecStatus::Success,
                Err(e) => k < opts.deep_view().len() && e@ == ErrorV::Base(
                    invalid_opt_msg(opts.deep_view()[k]),
                ),
            }
        }),
{
    let k = first_unknown_index(&sh.shopt_known, opts);
    apply_disable(&mut sh.shopt_on, opts, k);
    proof {
        assert(sh@ =~= (ShellView {
            shopt_on: opts_disabled_list(
                old(sh)@.shopt_on,
                opts.deep_view().take(k as int),
            ),
            ..old(sh)@
        }));
    }
    if k < opts.len() {
        let mut m = "shopt: ".to_owned();
        m.append(opts[k].as_str());
        m.append(": invalid shell option name");
        proof {
            assert(m@ == invalid_opt_msg(opts.deep_view()[k as int]));
        }
        Err(Error::Base(m))
    } else {
        Ok(ExecStatus::Success)
    }
}

} // verus!
