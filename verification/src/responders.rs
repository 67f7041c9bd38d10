//! Response shells shared by the handlers, and the redirect a rejected
//! caller is sent on.

use vstd::prelude::*;

verus! {

/// A response wrapped with a cache-control header value.
pub struct Cached<R> {
    pub response: R,
    pub header: &'static str,
}

/// The redirect target for a caller who must log in first: the login page,
/// with the originally requested location to come back to.
pub fn forbidden(uri: &str) -> (r: String)
    ensures
        r@ == "/account/login?next="@ + uri@,
{
    let mut url = String::from_str("/account/login?next=");
    url.append(uri);
    url
}

} // verus!
