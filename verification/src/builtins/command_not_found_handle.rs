//! The handler executed when the search for a command is unsuccessful, so
//! path-search failures can be caught and handled natively.

use vstd::prelude::*;

use crate::error::Error;
use crate::error::ErrorV;
use crate::status::ExecStatus;
use crate::text::joined_with;

verus! {

/// The error the handler reports: the unknown command name, quoted, and the
/// full command line it appeared in.
pub open spec fn spec_not_found_msg(args: Seq<Seq<char>>) -> Seq<char> {
    "unknown command \""@ + args[0] + "\" when executing: "@ + joined_with(args, " "@)
}

/// Report the failed command-line as an error.  The interpreter invokes the
/// handler with at least the unresolved command name as its first argument.
pub fn run(args: &Vec<String>) -> (r: Result<ExecStatus, Error>)
    requires
        args.len() > 0,
    ensures
        match r {
            Ok(_) => false,
            Err(e) => e@ == ErrorV::Base(spec_not_found_msg(args.deep_view())),
        },
{
    let mut msg = "unknown command \"".to_owned();
    msg.append(args[0].as_str());
    msg.append("\" when executing: ");
    msg.append(crate::text::join_with(args, " ").as_str());
    proof {
        assert(args.deep_view()[0] == args[0 as int]@);
    }
    Err(Error::Base(msg))
}

} // verus!
