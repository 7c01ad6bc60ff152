//! Connection authorization for the bridge server.
//!
//! With no configured token the server runs in open mode and accepts every
//! connection. With a token, the request must carry a credential header
//! whose value is either `Bearer <token>` or the bare token, compared
//! exactly.

use vstd::prelude::*;

verus! {

use vstd::string::StringExecFns;

/// Whether a credential authorizes a connection against an optional
/// configured token.
pub open spec fn spec_authorized(header: Option<Seq<char>>, token: Option<Seq<char>>) -> bool {
    match token {
        Option::None => true,
        Option::Some(t) => match header {
            Option::None => false,
            Option::Some(h) => h == "Bearer "@ + t || h == t,
        },
    }
}

/// Decides authorization for one connection attempt. `header` is the value
/// of the request's credential header, if it carried one.
pub fn authorized(header: Option<&str>, token: Option<&str>) -> (r: bool)
    ensures
        r == spec_authorized(
            match header {
                Option::Some(h) => Option::Some(h@),
                Option::None => Option::None,
            },
            match token {
                Option::Some(t) => Option::Some(t@),
                Option::None => Option::None,
            },
        ),
{
    match token {
        None => true,
        Some(t) => match header {
            None => false,
            Some(h) => {
                let hs = String::from_str(h);
                let bearer = String::from_str("Bearer ").concat(t);
                if hs == bearer {
                    true
                } else {
                    let bare = String::from_str(t);
                    hs == bare
                }
            },
        },
    }
}

} // verus!
