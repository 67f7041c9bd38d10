//! The caller identity carried by a signed token. Issuing and checking the
//! token signature happens outside the core; the core only consumes the
//! decoded claims.

use vstd::prelude::*;

verus! {

/// The decoded claims of a caller's token.
pub struct Claims {
    pub sub: String,
    pub email: Option<String>,
    pub perms: i32,
    pub exp: usize,
    pub iat: usize,
}

/// A caller identity: the claims, and the token to re-issue to the client
/// when it was refreshed during the request.
pub struct JWT {
    pub claims: Claims,
    pub token: Option<String>,
}

impl Default for JWT {
    /// The identity of a caller without a valid token: the anonymous
    /// sentinel at standard permission level.
    fn default() -> (r: JWT)
        ensures
            r.claims.sub@ == "Nobody"@,
            r.claims.email is None,
            r.claims.perms == 1,
            r.claims.exp == 1,
            r.claims.iat == 0,
            r.token is None,
    {
        JWT {
            claims: Claims {
                sub: String::from_str("Nobody"),
                email: None,
                perms: 1,
                exp: 1,
                iat: 0,
            },
            token: None,
        }
    }
}

} // verus!
