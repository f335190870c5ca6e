//! The richer frame shape of the authenticated protocol: a header
//! that may carry a token, and a payload that is either a chat
//! message or an auth exchange.

use vstd::prelude::*;
use vstd::string::StringSliceAdditionalSpecFns;

use crate::api::Message;
use crate::auth::{argon_of, Auth, AuthToken, UserSignData};

verus! {

/// Frame metadata: the sender's token, once it has one.
pub struct Header {
    jwt_token: Option<AuthToken>,
}

impl View for Header {
    type V = Option<Seq<char>>;

    closed spec fn view(&self) -> Option<Seq<char>> {
        match self.jwt_token {
            Some(ref t) => Some(t@),
            None => None,
        }
    }
}

impl Header {
    /// A header without a token.
    pub fn new() -> (r: Self)
        ensures
            r@ is None,
    {
        Header { jwt_token: None }
    }

    /// A header carrying the given token.
    pub fn with_token(jwt_token: AuthToken) -> (r: Self)
        ensures
            r@ == Some(jwt_token@),
    {
        Header { jwt_token: Some(jwt_token) }
    }
}

/// What a frame carries: a chat message or an auth exchange.
pub enum Payload {
    Msg(Message),
    Auth(Auth),
}

/// One unit of transfer of the authenticated protocol.
pub struct Frame {
    pub header: Header,
    pub payload: Payload,
}

impl Frame {
    pub fn new(header: Header, payload: Payload) -> (r: Self)
        ensures
            r.header == header,
            r.payload == payload,
    {
        Frame { header, payload }
    }
}

/// Why a frame could not be read from a buffer.
pub enum FrameDeserializationError {
    /// More bytes are needed; not a failure.
    Incomplete,
    /// The bytes do not match the format: a protocol violation.
    Other { description: String },
}

/// What the server's answer to a sign-in attempt means.
#[derive(Debug, PartialEq, Eq, Structural, Clone, Copy)]
pub enum AuthResponse {
    /// The server confirmed the sign-in.
    Accepted,
    /// The server refused the credentials.
    Rejected,
    /// The frame was no auth answer at all: a protocol violation.
    Unexpected,
}

/// Reads the frame a client gets back after sending its credentials:
/// accepted on a positive answer, rejected on a negative one, and
/// anything else is out of protocol.
pub fn interpret_auth_response(frame: &Frame) -> (r: AuthResponse)
    ensures
        r == (match frame.payload {
            Payload::Auth(Auth::LoggedIn(ok)) => if ok {
                AuthResponse::Accepted
            } else {
                AuthResponse::Rejected
            },
            _ => AuthResponse::Unexpected,
        }),
{
    match &frame.payload {
        Payload::Auth(Auth::LoggedIn(true)) => AuthResponse::Accepted,
        Payload::Auth(Auth::LoggedIn(false)) => AuthResponse::Rejected,
        _ => AuthResponse::Unexpected,
    }
}

/// Builds the frames a client sends.
pub struct MessageUtil;

impl MessageUtil {
    /// The login frame: no token yet, the hashed credentials inside.
    pub fn create_auth_login_frame(username: &str, password: &str) -> (r: Frame)
        ensures
            r.header@ is None,
            r.payload matches Payload::Auth(a) && a matches Auth::Login(d) && d@.username
                == username@ && (password.spec_bytes().len() <= 0xffff_ffff ==> d@.password
                == argon_of(password@, "RUST_ACADEMY"@)),
    {
        let user_sign_data = UserSignData::new(username, password);
        let auth_message = Auth::Login(user_sign_data);
        let payload = Payload::Auth(auth_message);
        Frame::new(Header::new(), payload)
    }

    /// The registration frame: no token yet, the hashed credentials
    /// inside.
    pub fn create_auth_register_frame(username: &str, password: &str) -> (r: Frame)
        ensures
            r.header@ is None,
            r.payload matches Payload::Auth(a) && a matches Auth::Register(d) && d@.username
                == username@ && (password.spec_bytes().len() <= 0xffff_ffff ==> d@.password
                == argon_of(password@, "RUST_ACADEMY"@)),
    {
        let user_sign_data = UserSignData::new(username, password);
        let auth_message = Auth::Register(user_sign_data);
        let payload = Payload::Auth(auth_message);
        Frame::new(Header::new(), payload)
    }

    /// The logout frame: the session's token, a bare logout inside.
    pub fn create_auth_logout_frame(auth_token: AuthToken) -> (r: Frame)
        ensures
            r.header@ == Some(auth_token@),
            r.payload matches Payload::Auth(a) && a is Logout,
    {
        let auth_message = Auth::Logout;
        let payload = Payload::Auth(auth_message);
        Frame::new(Header::with_token(auth_token), payload)
    }
}

} // verus!
