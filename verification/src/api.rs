use vstd::prelude::*;

use crate::error::{ErrorV, MsgSystemError};

verus! {

/// The identity a client presents at login and every envelope carries.
pub type Username = String;

/// An attachment travelling inside a `Message::File` or `Message::Image`.
///
/// Invariant (`FileDataV::wf`): `file_size` equals the number of bytes.
#[derive(Debug, PartialEq, Eq)]
pub struct FileData {
    pub bytes: Vec<u8>,
    pub file_name: String,
    pub file_extension: Option<String>,
    pub file_size: usize,
}

/// Mathematical model of `FileData`.
pub ghost struct FileDataV {
    pub bytes: Seq<u8>,
    pub file_name: Seq<char>,
    pub file_extension: Option<Seq<char>>,
    pub file_size: nat,
}

impl View for FileData {
    type V = FileDataV;

    open spec fn view(&self) -> FileDataV {
        FileDataV {
            bytes: self.bytes@,
            file_name: self.file_name@,
            file_extension: match self.file_extension {
                Some(ref e) => Some(e@),
                None => None,
            },
            file_size: self.file_size as nat,
        }
    }
}

impl FileDataV {
    /// A file record is well formed when the size it claims is the
    /// number of bytes it actually holds.
    pub open spec fn wf(self) -> bool {
        self.file_size == self.bytes.len()
    }
}

/// The file extension under this library's own path rule: the part of
/// the final `/`-separated component after its last `.`, provided that
/// dot is not the component's first character.
pub open spec fn spec_file_extension(p: Seq<char>) -> Option<Seq<char>>
    decreases p.len(),
{
    if p.len() == 0 {
        None
    } else if p.last() == '/' {
        None
    } else if p.last() == '.' {
        if p.len() >= 2 && p[p.len() - 2] != '/' {
            Some(Seq::<char>::empty())
        } else {
            None
        }
    } else {
        match spec_file_extension(p.drop_last()) {
            Some(e) => Some(e.push(p.last())),
            None => None,
        }
    }
}

impl FileData {
    /// Builds a well-formed record: the claimed size is taken from the
    /// bytes themselves.
    pub fn new(bytes: Vec<u8>, file_name: String, file_extension: Option<String>) -> (r: Self)
        ensures
            r@.bytes == bytes@,
            r@.file_name == file_name@,
            r@.file_extension == (match file_extension {
                Some(e) => Some(e@),
                None => None::<Seq<char>>,
            }),
            r@.wf(),
    {
        let file_size = bytes.len();
        FileData { bytes, file_name, file_extension, file_size }
    }

    /// Validating constructor: accepts a claimed size only when it
    /// matches the bytes, so an inconsistent record is rejected before
    /// it can be transmitted.
    pub fn try_new(
        bytes: Vec<u8>,
        file_name: String,
        file_extension: Option<String>,
        file_size: usize,
    ) -> (r: Result<Self, MsgSystemError>)
        ensures
            match r {
                Ok(f) => {
                    &&& file_size == bytes@.len()
                    &&& f@.bytes == bytes@
                    &&& f@.file_name == file_name@
                    &&& f@.file_extension == (match file_extension {
                        Some(e) => Some(e@),
                        None => None::<Seq<char>>,
                    })
                    &&& f@.file_size == file_size as nat
                    &&& f@.wf()
                },
                Err(e) => {
                    &&& file_size != bytes@.len()
                    &&& e@ == (ErrorV::CannotCreateFileData { file_path: file_name@ })
                },
            },
    {
        if file_size == bytes.len() {
            Ok(FileData { bytes, file_name, file_extension, file_size })
        } else {
            Err(MsgSystemError::CannotCreateFileData { file_path: file_name })
        }
    }

    /// Extension of a path string, under `spec_file_extension`.
    pub fn get_file_extension(file_path: &str) -> (r: Option<String>)
        ensures
            match r {
                Some(s) => spec_file_extension(file_path@) == Some(s@),
                None => spec_file_extension(file_path@) is None,
            },
    {
        let n = file_path.unicode_len();
        proof {
            assert(file_path@.take(n as int) =~= file_path@);
        }
        Self::ext_scan(file_path, n)
    }

    /// Scans the first `i` characters of `p` from the end, mirroring
    /// `spec_file_extension` on that prefix.
    fn ext_scan(p: &str, i: usize) -> (r: Option<String>)
        requires
            i <= p@.len(),
        ensures
            match r {
                Some(s) => spec_file_extension(p@.take(i as int)) == Some(s@),
                None => spec_file_extension(p@.take(i as int)) is None,
            },
        decreases i,
    {
        if i == 0 {
            proof {
                assert(p@.take(0).len() == 0);
            }
            None
        } else {
            let c = p.get_char(i - 1);
            proof {
                assert(p@.take(i as int).last() == p@[i - 1]);
            }
            if c == '/' {
                None
            } else if c == '.' {
                if i >= 2 && p.get_char(i - 2) != '/' {
                    proof {
                        assert(p@.take(i as int)[i - 2] == p@[i - 2]);
                    }
                    Some(String::new())
                } else {
                    None
                }
            } else {
                proof {
                    assert(p@.take(i as int).drop_last() =~= p@.take(i - 1));
                }
                match Self::ext_scan(p, i - 1) {
                    Some(mut s) => {
                        crate::strutil::push_char(&mut s, c);
                        Some(s)
                    },
                    None => None,
                }
            }
        }
    }
}

/// The content variants a frame can carry.
#[derive(Debug, PartialEq, Eq)]
pub enum Message {
    File(FileData),
    Image(FileData),
    OtherText(String),
    Login,
    Exit,
}

/// Mathematical model of `Message`.
pub ghost enum MessageV {
    File(FileDataV),
    Image(FileDataV),
    OtherText(Seq<char>),
    Login,
    Exit,
}

impl View for Message {
    type V = MessageV;

    open spec fn view(&self) -> MessageV {
        match self {
            Message::File(f) => MessageV::File(f@),
            Message::Image(f) => MessageV::Image(f@),
            Message::OtherText(t) => MessageV::OtherText(t@),
            Message::Login => MessageV::Login,
            Message::Exit => MessageV::Exit,
        }
    }
}

impl MessageV {
    /// A message is well formed when any attachment it carries is.
    pub open spec fn wf(self) -> bool {
        match self {
            MessageV::File(f) => f.wf(),
            MessageV::Image(f) => f.wf(),
            _ => true,
        }
    }
}

impl Message {
    /// True exactly on the `Exit` variant.
    pub fn is_exit(&self) -> (r: bool)
        ensures
            r == (self@ is Exit),
    {
        match self {
            Message::Exit => true,
            _ => false,
        }
    }

    /// True exactly on the `Login` variant.
    pub fn is_login(&self) -> (r: bool)
        ensures
            r == (self@ is Login),
    {
        match self {
            Message::Login => true,
            _ => false,
        }
    }
}

/// A sender identity together with the content it sent.
#[derive(Debug, PartialEq, Eq)]
pub struct MsgPayload {
    pub from_user: Username,
    pub content: Message,
}

/// Mathematical model of `MsgPayload`.
pub ghost struct MsgPayloadV {
    pub from_user: Seq<char>,
    pub content: MessageV,
}

impl View for MsgPayload {
    type V = MsgPayloadV;

    open spec fn view(&self) -> MsgPayloadV {
        MsgPayloadV { from_user: self.from_user@, content: self.content@ }
    }
}

impl MsgPayloadV {
    pub open spec fn wf(self) -> bool {
        self.content.wf()
    }
}

impl MsgPayload {
    pub fn new(from_user: &str, content: Message) -> (r: Self)
        ensures
            r@.from_user == from_user@,
            r@.content == content@,
    {
        MsgPayload { from_user: from_user.to_owned(), content }
    }
}

/// The unit of wire transfer: an optional payload and an optional
/// error, one frame per envelope.
#[derive(Debug, PartialEq, Eq)]
pub struct MessageEnvelope {
    pub payload: Option<MsgPayload>,
    pub error: Option<MsgSystemError>,
}

/// Mathematical model of `MessageEnvelope`.
pub ghost struct EnvelopeV {
    pub payload: Option<MsgPayloadV>,
    pub error: Option<ErrorV>,
}

impl View for MessageEnvelope {
    type V = EnvelopeV;

    open spec fn view(&self) -> EnvelopeV {
        EnvelopeV {
            payload: match self.payload {
                Some(ref p) => Some(p@),
                None => None,
            },
            error: match self.error {
                Some(ref e) => Some(e@),
                None => None,
            },
        }
    }
}

impl EnvelopeV {
    /// An envelope is well formed when its payload, if any, is.
    pub open spec fn wf(self) -> bool {
        match self.payload {
            Some(p) => p.wf(),
            None => true,
        }
    }
}

impl MessageEnvelope {
    pub fn new(payload: Option<MsgPayload>, error: Option<MsgSystemError>) -> (r: Self)
        ensures
            r@.payload == (match payload {
                Some(p) => Some(p@),
                None => None::<MsgPayloadV>,
            }),
            r@.error == (match error {
                Some(e) => Some(e@),
                None => None::<ErrorV>,
            }),
    {
        MessageEnvelope { payload, error }
    }
}

} // verus!
