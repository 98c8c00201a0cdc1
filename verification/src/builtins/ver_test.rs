//! The `ver_test` builtin: version testing over package version strings.

use vstd::prelude::*;
use vstd::string::StrSliceExecFns;
use vstd::string::StringExecFns;

use crate::error::Error;
use crate::error::ErrorV;
use crate::status::ExecStatus;
use crate::text::dec_str;
use crate::text::str_eq;
use crate::text::u64_to_string;
use crate::version::cmp_version;
use crate::version::version_spec;
use crate::version::Version;

verus! {

/// What a comparison operator asks of the comparison result, if the
/// operator is one of the six known ones.
pub open spec fn op_result(op: Seq<char>, c: int) -> Option<bool> {
    if op == "-eq"@ {
        Some(c == 0)
    } else if op == "-ne"@ {
        Some(c != 0)
    } else if op == "-lt"@ {
        Some(c < 0)
    } else if op == "-gt"@ {
        Some(c > 0)
    } else if op == "-le"@ {
        Some(c <= 0)
    } else if op == "-ge"@ {
        Some(c >= 0)
    } else {
        None
    }
}

/// What `ver_test` returns: with two arguments the version bound to `PVR`
/// is the left-hand side; with three the arguments carry both sides; any
/// other shape, an unparsable version or an unknown operator is an error,
/// and an established test reports success or an ordinary failure.
pub open spec fn spec_ver_test(args: Seq<Seq<char>>, pvr: Option<Seq<char>>) -> Result<
    ExecStatus,
    ErrorV,
> {
    if args.len() == 2 && (pvr is None || pvr.unwrap().len() == 0) {
        Err(ErrorV::Base("$PVR is undefined"@))
    } else if args.len() != 2 && args.len() != 3 {
        Err(ErrorV::Base("only accepts 2 or 3 args, got "@ + dec_str(args.len() as int)))
    } else {
        let lhs = if args.len() == 2 {
            pvr.unwrap()
        } else {
            args[0]
        };
        let op = if args.len() == 2 {
            args[0]
        } else {
            args[1]
        };
        let rhs = if args.len() == 2 {
            args[1]
        } else {
            args[2]
        };
        match (version_spec(lhs), version_spec(rhs)) {
            (Some(a), Some(b)) => match op_result(op, cmp_version(a, b)) {
                Some(true) => Ok(ExecStatus::Success),
                Some(false) => Ok(ExecStatus::Failure(1)),
                None => Err(ErrorV::Base("invalid operator: "@ + op)),
            },
            (None, _) => Err(ErrorV::Base("invalid version: "@ + lhs)),
            (Some(_), None) => Err(ErrorV::Base("invalid version: "@ + rhs)),
        }
    }
}

/// Perform version testing: succeeds when the specified test holds,
/// fails ordinarily when it does not.
pub fn ver_test(args: &Vec<String>, pvr: &Option<String>) -> (r: Result<ExecStatus, Error>)
    ensures
        match (r, spec_ver_test(args.deep_view(), pvr.deep_view())) {
            (Ok(a), Ok(b)) => a == b,
            (Err(e), Err(ev)) => e@ == ev,
            _ => false,
        },
{
    let n = args.len();
    let empty_pvr = match pvr {
        None => true,
        Some(p) => p.as_str().unicode_len() == 0,
    };
    if n == 2 && empty_pvr {
        return Err(Error::Base("$PVR is undefined".to_owned()));
    }
    if n != 2 && n != 3 {
        let mut m = "only accepts 2 or 3 args, got ".to_owned();
        m.append(u64_to_string(n as u64).as_str());
        proof {
            assert(n as u64 as int == args.deep_view().len());
        }
        return Err(Error::Base(m));
    }
    proof {
        assert(args.deep_view().len() == n);
        assert forall|j: int| 0 <= j < n implies args.deep_view()[j] == args[j]@ by {}
    }
    let (lhs, op, rhs): (&String, &String, &String) = if n == 2 {
        let p = match pvr {
            Some(p) => p,
            None => {
                proof {
                    assert(false);
                }
                &args[0]
            },
        };
        (p, &args[0], &args[1])
    } else {
        (&args[0], &args[1], &args[2])
    };
    let va = match Version::parse(lhs.as_str()) {
        Some(v) => v,
        None => {
            let mut m = "invalid version: ".to_owned();
            m.append(lhs.as_str());
            return Err(Error::Base(m));
        },
    };
    let vb = match Version::parse(rhs.as_str()) {
        Some(v) => v,
        None => {
            let mut m = "invalid version: ".to_owned();
            m.append(rhs.as_str());
            return Err(Error::Base(m));
        },
    };
    let c = crate::version::compare(&va, &vb);
    let holds: bool = if str_eq(op.as_str(), "-eq") {
        c == 0
    } else if str_eq(op.as_str(), "-ne") {
        c != 0
    } else if str_eq(op.as_str(), "-lt") {
        c < 0
    } else if str_eq(op.as_str(), "-gt") {
        c > 0
    } else if str_eq(op.as_str(), "-le") {
        c <= 0
    } else if str_eq(op.as_str(), "-ge") {
        c >= 0
    } else {
        let mut m = "invalid operator: ".to_owned();
        m.append(op.as_str());
        return Err(Error::Base(m));
    };
    if holds {
        Ok(ExecStatus::Success)
    } else {
        Ok(ExecStatus::Failure(1))
    }
}

} // verus!
