//! The client's decision core: turning local input into envelopes on
//! the way out, and received envelopes into store instructions and
//! display lines on the way in. The transport reads and writes, the
//! prompt and the screen stay with the caller.

use vstd::prelude::*;

use crate::api::{EnvelopeV, Message, MessageEnvelope, MsgPayload, MsgPayloadV, MessageV, Username};
use crate::server::sender_of;
use crate::strutil::{
    is_space, join_words, lower_of, spec_join_words, spec_starts_with, spec_words, split_words,
    str_eq, str_starts_with, to_lowercase,
};

verus! {

/// The colors the surrounding program styles its lines with; how they
/// are painted is its business.
pub enum ColorFacade {
    Yellow,
    Green,
}

/// Why a message could not be built from user input.
#[derive(Debug, PartialEq, Eq)]
pub enum MessageCreationError {
    InvalidStringProvided { provided_str: String },
    CannotCreateFileData { file_path: String },
}

// ---------------------------------------------------------------------
// Outbound: local input to envelope.
// ---------------------------------------------------------------------
/// What one line of local input asks for.
pub enum UserInput {
    /// Send the file at `path`, as an image when `image` is set.
    Attachment { path: String, image: bool },
    /// End the session.
    Quit,
    /// Send the line as plain text.
    Text(String),
}

/// Mathematical model of `UserInput`.
pub ghost enum InputV {
    Attachment { path: Seq<char>, image: bool },
    Quit,
    Text(Seq<char>),
}

impl View for UserInput {
    type V = InputV;

    open spec fn view(&self) -> InputV {
        match self {
            UserInput::Attachment { path, image } => InputV::Attachment {
                path: path@,
                image: *image,
            },
            UserInput::Quit => InputV::Quit,
            UserInput::Text(t) => InputV::Text(t@),
        }
    }
}

/// How a line of input is read: a line opening with `.file` or
/// `.image` names an attachment, its path the remaining words joined
/// by single spaces; the `.file` command sends a file, any other such
/// opening an image. A line opening with `.quit` ends the session.
/// Everything else is plain text, sent as it was typed.
pub open spec fn spec_parse_input(s: Seq<char>) -> InputV {
    if spec_starts_with(s, ".file"@) || spec_starts_with(s, ".image"@) {
        let ws = spec_words(s);
        let path = spec_join_words(ws.skip(1));
        if ws.len() >= 1 && ws[0] == ".file"@ {
            InputV::Attachment { path, image: false }
        } else {
            InputV::Attachment { path, image: true }
        }
    } else if spec_starts_with(s, ".quit"@) {
        InputV::Quit
    } else {
        InputV::Text(s)
    }
}

/// Reads one line of local input as `spec_parse_input` says.
pub fn parse_user_input(s: &str) -> (r: UserInput)
    ensures
        r@ == spec_parse_input(s@),
{
    if str_starts_with(s, ".file") || str_starts_with(s, ".image") {
        proof {
            reveal_strlit(".file");
            reveal_strlit(".image");
            if spec_starts_with(s@, ".file"@) {
                assert(s@.subrange(0, ".file"@.len() as int)[0] == s@[0]);
            } else {
                assert(s@.subrange(0, ".image"@.len() as int)[0] == s@[0]);
            }
            assert(s@[0] == '.');
            assert(!is_space('.'));
            assert(spec_words(s@).len() >= 1);
        }
        let ws = split_words(s);
        proof {
            assert(ws@.map_values(|w: String| w@).len() == ws@.len());
        }
        let path = join_words(&ws, 1);
        proof {
            assert(ws@.map_values(|w: String| w@).skip(1) =~= spec_words(s@).skip(1));
        }
        let is_file = str_eq(ws[0].as_str(), ".file");
        proof {
            assert(ws@.map_values(|w: String| w@)[0] == ws@[0]@);
        }
        UserInput::Attachment { path, image: !is_file }
    } else if str_starts_with(s, ".quit") {
        UserInput::Quit
    } else {
        UserInput::Text(s.to_owned())
    }
}

/// The sending half of the client: it holds the identity captured at
/// login and stamps it on every envelope it builds.
pub struct MessageSender {
    username: Username,
}

impl View for MessageSender {
    type V = Seq<char>;

    closed spec fn view(&self) -> Seq<char> {
        self.username@
    }
}

impl MessageSender {
    /// A sender for the identity the user gave at login.
    pub fn new(username: &str) -> (r: Self)
        ensures
            r@ == username@,
    {
        MessageSender { username: username.to_owned() }
    }

    /// The identity every outgoing envelope will carry.
    pub fn username(&self) -> (r: &String)
        ensures
            r@ == self@,
    {
        &self.username
    }

    /// The envelope to put on the wire for one message: the sender's
    /// identity and the content, and no error.
    pub fn build_envelope(&self, content: Message) -> (r: MessageEnvelope)
        ensures
            r@.payload == Some(MsgPayloadV { from_user: self@, content: content@ }),
            r@.error is None,
    {
        MessageEnvelope {
            payload: Some(MsgPayload { from_user: self.username.clone(), content }),
            error: None,
        }
    }
}

// ---------------------------------------------------------------------
// Inbound: envelope to store instruction and display line.
// ---------------------------------------------------------------------
/// True when the envelope carries a file or an image.
pub open spec fn has_attachment(e: EnvelopeV) -> bool {
    match e.payload {
        Some(p) => p.content is File || p.content is Image,
        None => false,
    }
}

/// Where a sender's attachments are stored: the storage root, then
/// `/from_` and the sender's name folded to lowercase.
pub open spec fn spec_storage_dir(storage: Seq<char>, user: Seq<char>) -> Seq<char> {
    storage + "/from_"@ + lower_of(user)
}

/// The one line shown for an envelope, per content variant; an
/// envelope without payload shows nothing.
pub open spec fn spec_render(storage: Seq<char>, e: EnvelopeV) -> Seq<char> {
    match e.payload {
        None => Seq::<char>::empty(),
        Some(p) => match p.content {
            MessageV::File(f) => p.from_user + " has sent a file with name: "@ + f.file_name
                + ". Stored in: "@ + spec_storage_dir(storage, p.from_user),
            MessageV::Image(f) => p.from_user + " has sent an image with name: "@ + f.file_name
                + ". Stored in: "@ + spec_storage_dir(storage, p.from_user),
            MessageV::OtherText(t) => p.from_user + ": "@ + t,
            MessageV::Login => p.from_user + " has joined the channel"@,
            MessageV::Exit => p.from_user + " has left the channel"@,
        },
    }
}

/// The receiving half of the client: it decides where attachments go
/// and what each envelope shows on screen.
pub struct MessageReceiver {
    storage_path: String,
}

impl View for MessageReceiver {
    type V = Seq<char>;

    closed spec fn view(&self) -> Seq<char> {
        self.storage_path@
    }
}

impl MessageReceiver {
    /// A receiver storing attachments under the given root.
    pub fn new(storage_path: &str) -> (r: Self)
        ensures
            r@ == storage_path@,
    {
        MessageReceiver { storage_path: storage_path.to_owned() }
    }

    /// The directory a sender's attachments are stored in.
    pub fn storage_dir(&self, from_user: &str) -> (r: String)
        ensures
            r@ == spec_storage_dir(self@, from_user@),
    {
        let mut out = self.storage_path.clone();
        out.append("/from_");
        let lowered = to_lowercase(from_user);
        out.append(lowered.as_str());
        proof {
            assert(out@ =~= spec_storage_dir(self@, from_user@));
        }
        out
    }

    /// The store instruction for one envelope: the directory to write
    /// the attachment into, exactly when the envelope carries one.
    pub fn process_message(&self, msg_envelope: &MessageEnvelope) -> (r: Option<String>)
        ensures
            match r {
                Some(dir) => has_attachment(msg_envelope@) && dir@ == spec_storage_dir(
                    self@,
                    sender_of(msg_envelope@),
                ),
                None => !has_attachment(msg_envelope@),
            },
    {
        match &msg_envelope.payload {
            Some(p) => match &p.content {
                Message::File(_) => Some(self.storage_dir(p.from_user.as_str())),
                Message::Image(_) => Some(self.storage_dir(p.from_user.as_str())),
                _ => None,
            },
            None => None,
        }
    }

    /// The display line for one envelope, as `spec_render` says.
    pub fn interpret_message_to_stdout(&self, msg_envelope: &MessageEnvelope) -> (r: String)
        ensures
            r@ == spec_render(self@, msg_envelope@),
    {
        match &msg_envelope.payload {
            None => String::new(),
            Some(p) => {
                let mut out = p.from_user.clone();
                match &p.content {
                    Message::File(f) => {
                        out.append(" has sent a file with name: ");
                        out.append(f.file_name.as_str());
                        out.append(". Stored in: ");
                        let dir = self.storage_dir(p.from_user.as_str());
                        out.append(dir.as_str());
                    },
                    Message::Image(f) => {
                        out.append(" has sent an image with name: ");
                        out.append(f.file_name.as_str());
                        out.append(". Stored in: ");
                        let dir = self.storage_dir(p.from_user.as_str());
                        out.append(dir.as_str());
                    },
                    Message::OtherText(t) => {
                        out.append(": ");
                        out.append(t.as_str());
                    },
                    Message::Login => {
                        out.append(" has joined the channel");
                    },
                    Message::Exit => {
                        out.append(" has left the channel");
                    },
                }
                proof {
                    assert(out@ =~= spec_render(self@, msg_envelope@));
                }
                out
            },
        }
    }
}

} // verus!
