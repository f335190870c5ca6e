//! Account data carried inside auth frames. Passwords never travel in
//! the clear: they are hashed at the client before they enter a frame.
//! Token issuance and validation live with the caller.

use vstd::prelude::*;
use vstd::string::StringSliceAdditionalSpecFns;

use crate::api::Username;

verus! {

/// Names what `argon2rs::argon2d_simple` returns: the 32-byte Argon2d
/// hash, a function of password and salt alone.
pub uninterp spec fn argon_of(password: Seq<char>, salt: Seq<char>) -> Seq<u8>;

/// Relies on `argon2rs::argon2d_simple`: the Argon2d hash of password
/// and salt, determined by them alone. The callee asserts that the
/// salt is 8 to 2^32 - 1 bytes and the password at most 2^32 - 1, so
/// those inputs are excluded here.
#[verifier::external_body]
fn argon2d_hash(password: &str, salt: &str) -> (r: [u8; 32])
    requires
        8 <= salt.spec_bytes().len() <= 0xffff_ffff,
        password.spec_bytes().len() <= 0xffff_ffff,
    ensures
        r@ == argon_of(password@, salt@),
{
    argon2rs::argon2d_simple(password, salt)
}

/// The auth requests and answers that travel in a frame.
pub enum Auth {
    Register(UserSignData),
    Login(UserSignData),
    Logout,
    LoggedIn(bool),
}

/// The auth requests of the earlier message shape, without an answer
/// variant.
pub enum AuthMessage {
    Register(UserSignData),
    Login(UserSignData),
    Logout,
}

/// A username and the hash of the password it signs in with.
pub struct UserSignData {
    pub username: Username,
    pub password: [u8; 32],
}

/// Mathematical model of `UserSignData`.
pub ghost struct UserSignDataV {
    pub username: Seq<char>,
    pub password: Seq<u8>,
}

impl View for UserSignData {
    type V = UserSignDataV;

    open spec fn view(&self) -> UserSignDataV {
        UserSignDataV { username: self.username@, password: self.password@ }
    }
}

impl UserSignData {
    /// Hashes the password under the fixed salt and pairs it with the
    /// username.
    pub fn new(username: &str, password: &str) -> (r: UserSignData)
        ensures
            r@.username == username@,
            password.spec_bytes().len() <= 0xffff_ffff ==> r@.password == argon_of(
                password@,
                "RUST_ACADEMY"@,
            ),
    {
        let salt = "RUST_ACADEMY";
        proof {
            reveal_strlit("RUST_ACADEMY");
            assert(vstd::utf8::is_ascii_chars(salt@));
            vstd::utf8::is_ascii_chars_encode_utf8(salt@);
        }
        let password_hash: [u8; 32] = if password.as_bytes().len() <= 0xffff_ffff {
            argon2d_hash(password, salt)
        } else {
            // a password longer than the hash input limit never
            // occurs; the limit is stated rather than asserted
            [0u8; 32]
        };
        UserSignData { username: username.to_owned(), password: password_hash }
    }
}

/// What a signed token certifies: who, and until when.
pub struct UserClaims {
    pub username: Username,
    pub exp: u64,
}

/// A signed authentication token, carried opaque.
pub struct AuthToken(pub String);

impl View for AuthToken {
    type V = Seq<char>;

    open spec fn view(&self) -> Seq<char> {
        self.0@
    }
}

} // verus!
