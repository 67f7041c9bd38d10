//! The account record as the user store hands it out. Database access
//! happens outside the core.

use vstd::prelude::*;

verus! {

/// One account of the user store.
pub struct MarmakUser {
    pub username: String,
    pub password: String,
    pub perms: i32,
    pub mirror_settings: Option<String>,
    pub email: Option<String>,
}

} // verus!
