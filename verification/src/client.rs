use vstd::prelude::*;

use crate::auth::AuthUser;

verus! {

/// What the desktop client keeps about the signed-in user: identity,
/// credentials, and the chat servers to connect to.
#[derive(Debug)]
pub struct CUser {
    pub id: i64,
    pub auth_address: String,
    pub username: String,
    pub email: String,
    pub server_addresses: Vec<String>,
    pub token: String,
}

impl CUser {
    /// Assembles the client-side user from the record its home Auth Service
    /// returned, the address it was fetched from, and the session's bearer.
    pub fn from_account(auth_address: String, token: String, account: AuthUser) -> (r: CUser)
        ensures
            r.id == account.id,
            r.auth_address@ == auth_address@,
            r.username@ == account.username@,
            r.email@ == account.email@,
            r.server_addresses.deep_view() == account.servers.deep_view(),
            r.token@ == token@,
    {
        CUser {
            id: account.id,
            auth_address,
            username: account.username,
            email: account.email,
            server_addresses: account.servers,
            token,
        }
    }
}

} // verus!
