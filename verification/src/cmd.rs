//! What the interactive prompt hands the client: credentials and the
//! choice between an existing and a fresh account. The prompting
//! itself is the caller's.

use vstd::prelude::*;

verus! {

/// The interactive prompt.
pub struct Cmd;

impl Cmd {
    pub fn new() -> Self {
        Cmd
    }
}

/// The non-interactive prompt helpers.
pub struct CmdUtil;

/// What the user answered at sign-in.
pub struct AuthInput {
    pub username: String,
    pub password: String,
    pub existing_account: bool,
}

impl AuthInput {
    /// Bundles the answers of one sign-in dialogue.
    pub fn new(username: String, password: String, existing_account: bool) -> (r: Self)
        ensures
            r.username@ == username@,
            r.password@ == password@,
            r.existing_account == existing_account,
    {
        AuthInput { username, password, existing_account }
    }
}

} // verus!
