//! The frame codec: a compact binary form for `MessageEnvelope` and its
//! exact inverse.
//!
//! Wire form of one frame:
//!
//! ```text
//! +----------------------+--------------------------------+
//! | payload length, 4 B  | encoded envelope, length bytes |
//! | little endian        |                                |
//! +----------------------+--------------------------------+
//! ```
//!
//! Inside the payload every length is a 4-byte little-endian count, a
//! character is its Unicode scalar value in 4 bytes little endian, an
//! option is one tag byte (0 absent, 1 present) followed by the value,
//! and enum variants carry one leading tag byte.

use vstd::bytes::*;
use vstd::prelude::*;
use vstd::slice::{slice_index_get, slice_subrange, slice_to_vec};

use crate::api::{
    EnvelopeV, FileData, FileDataV, Message, MessageEnvelope, MessageV, MsgPayload, MsgPayloadV,
};
use crate::error::{ErrorV, MsgSystemError};
use crate::strutil::{code_to_char, push_char};

verus! {

/// Number of bytes in the little-endian length prefix that precedes
/// every frame on the wire.
pub const HEADER_SIZE: usize = 4;

/// Largest count the 4-byte length prefix can carry.
pub open spec fn max_len() -> int {
    0xffff_ffff
}

// ---------------------------------------------------------------------
// Encoding, at the level of the mathematical model.
// ---------------------------------------------------------------------
/// A count as the 4-byte little-endian prefix.
pub open spec fn enc_len(n: nat) -> Seq<u8> {
    spec_u32_to_le_bytes(n as u32)
}

/// One character as its scalar value, 4 bytes little endian.
pub open spec fn enc_char(c: char) -> Seq<u8> {
    spec_u32_to_le_bytes(c as u32)
}

/// The characters of a string, one after the other.
pub open spec fn enc_chars(s: Seq<char>) -> Seq<u8>
    decreases s.len(),
{
    if s.len() == 0 {
        Seq::<u8>::empty()
    } else {
        enc_char(s[0]) + enc_chars(s.drop_first())
    }
}

/// A string: its character count, then its characters.
pub open spec fn enc_str(s: Seq<char>) -> Seq<u8> {
    enc_len(s.len()) + enc_chars(s)
}

/// A byte sequence: its count, then the raw bytes.
pub open spec fn enc_bytes(b: Seq<u8>) -> Seq<u8> {
    enc_len(b.len()) + b
}

/// An optional string: tag byte, then the string when present.
pub open spec fn enc_opt_str(o: Option<Seq<char>>) -> Seq<u8> {
    match o {
        None => seq![0u8],
        Some(s) => seq![1u8] + enc_str(s),
    }
}

/// A file record: bytes, name, optional extension, claimed size.
pub open spec fn enc_filedata(f: FileDataV) -> Seq<u8> {
    enc_bytes(f.bytes) + enc_str(f.file_name) + enc_opt_str(f.file_extension) + enc_len(
        f.file_size,
    )
}

/// A message: one tag byte, then the variant's fields.
pub open spec fn enc_msg(m: MessageV) -> Seq<u8> {
    match m {
        MessageV::File(f) => seq![0u8] + enc_filedata(f),
        MessageV::Image(f) => seq![1u8] + enc_filedata(f),
        MessageV::OtherText(t) => seq![2u8] + enc_str(t),
        MessageV::Login => seq![3u8],
        MessageV::Exit => seq![4u8],
    }
}

/// An error: one tag byte, then the carried string where the variant
/// has one.
pub open spec fn enc_err(e: ErrorV) -> Seq<u8> {
    match e {
        ErrorV::DeserializationFailed => seq![0u8],
        ErrorV::ReadingFromTCPStreamFailed => seq![1u8],
        ErrorV::SerializationFailed => seq![2u8],
        ErrorV::CannotConstructMessage { provided_str } => seq![3u8] + enc_str(provided_str),
        ErrorV::CannotCreateFileData { file_path } => seq![4u8] + enc_str(file_path),
        ErrorV::ServerConfigurationNotProvided => seq![5u8],
        ErrorV::CannotDeriveSocketAddress { config } => seq![6u8] + enc_str(config),
        ErrorV::CannotWriteFile { output_directory } => seq![7u8] + enc_str(output_directory),
    }
}

/// A payload: the sender, then the content.
pub open spec fn enc_payload(p: MsgPayloadV) -> Seq<u8> {
    enc_str(p.from_user) + enc_msg(p.content)
}

/// An envelope: optional payload, then optional error.
pub open spec fn enc_env(e: EnvelopeV) -> Seq<u8> {
    (match e.payload {
        None => seq![0u8],
        Some(p) => seq![1u8] + enc_payload(p),
    }) + (match e.error {
        None => seq![0u8],
        Some(err) => seq![1u8] + enc_err(err),
    })
}

// ---------------------------------------------------------------------
// Which values the length prefixes can carry.
// ---------------------------------------------------------------------
pub open spec fn fits_str(s: Seq<char>) -> bool {
    s.len() <= max_len()
}

pub open spec fn fits_opt_str(o: Option<Seq<char>>) -> bool {
    match o {
        None => true,
        Some(s) => fits_str(s),
    }
}

pub open spec fn fits_filedata(f: FileDataV) -> bool {
    &&& f.bytes.len() <= max_len()
    &&& fits_str(f.file_name)
    &&& fits_opt_str(f.file_extension)
    &&& f.file_size <= max_len()
}

pub open spec fn fits_msg(m: MessageV) -> bool {
    match m {
        MessageV::File(f) => fits_filedata(f),
        MessageV::Image(f) => fits_filedata(f),
        MessageV::OtherText(t) => fits_str(t),
        MessageV::Login => true,
        MessageV::Exit => true,
    }
}

pub open spec fn fits_err(e: ErrorV) -> bool {
    match e {
        ErrorV::CannotConstructMessage { provided_str } => fits_str(provided_str),
        ErrorV::CannotCreateFileData { file_path } => fits_str(file_path),
        ErrorV::CannotDeriveSocketAddress { config } => fits_str(config),
        ErrorV::CannotWriteFile { output_directory } => fits_str(output_directory),
        _ => true,
    }
}

pub open spec fn fits_payload(p: MsgPayloadV) -> bool {
    fits_str(p.from_user) && fits_msg(p.content)
}

/// Every length written inside the envelope fits its 4-byte prefix.
pub open spec fn fits_parts(e: EnvelopeV) -> bool {
    &&& (match e.payload {
        None => true,
        Some(p) => fits_payload(p),
    })
    &&& (match e.error {
        None => true,
        Some(err) => fits_err(err),
    })
}

/// An envelope can be put on the wire: it is well formed, every inner
/// length fits, and the whole payload fits the frame's length prefix.
pub open spec fn spec_serializable(e: EnvelopeV) -> bool {
    &&& e.wf()
    &&& fits_parts(e)
    &&& enc_env(e).len() <= max_len()
}

/// The full frame: length prefix, then the encoded envelope.
pub open spec fn spec_serialize(e: EnvelopeV) -> Seq<u8> {
    enc_len(enc_env(e).len()) + enc_env(e)
}

// ---------------------------------------------------------------------
// Parsing, at the level of the mathematical model. Each parser reads
// at position `i` of `b` and yields the value and the position after
// it, or nothing when the bytes do not match the format.
// ---------------------------------------------------------------------
pub open spec fn p_u8_at(b: Seq<u8>, i: int) -> Option<(u8, int)> {
    if 0 <= i && i + 1 <= b.len() {
        Some((b[i], i + 1))
    } else {
        None
    }
}

pub open spec fn p_u32_at(b: Seq<u8>, i: int) -> Option<(u32, int)> {
    if 0 <= i && i + 4 <= b.len() {
        Some((spec_u32_from_le_bytes(b.subrange(i, i + 4)), i + 4))
    } else {
        None
    }
}

pub open spec fn p_char_at(b: Seq<u8>, i: int) -> Option<(char, int)> {
    match p_u32_at(b, i) {
        Some((u, j)) => if crate::strutil::is_scalar_value(u) {
            Some((u as char, j))
        } else {
            None
        },
        None => None,
    }
}

pub open spec fn p_chars_at(b: Seq<u8>, i: int, n: nat) -> Option<(Seq<char>, int)>
    decreases n,
{
    if n == 0 {
        Some((Seq::<char>::empty(), i))
    } else {
        match p_char_at(b, i) {
            Some((c, j)) => match p_chars_at(b, j, (n - 1) as nat) {
                Some((s, k)) => Some((seq![c] + s, k)),
                None => None,
            },
            None => None,
        }
    }
}

pub open spec fn p_str_at(b: Seq<u8>, i: int) -> Option<(Seq<char>, int)> {
    match p_u32_at(b, i) {
        Some((n, j)) => p_chars_at(b, j, n as nat),
        None => None,
    }
}

pub open spec fn p_bytes_at(b: Seq<u8>, i: int) -> Option<(Seq<u8>, int)> {
    match p_u32_at(b, i) {
        Some((n, j)) => if j + n <= b.len() {
            Some((b.subrange(j, j + n), j + n))
        } else {
            None
        },
        None => None,
    }
}

pub open spec fn p_opt_str_at(b: Seq<u8>, i: int) -> Option<(Option<Seq<char>>, int)> {
    match p_u8_at(b, i) {
        Some((t, j)) => if t == 0u8 {
            Some((None, j))
        } else if t == 1u8 {
            match p_str_at(b, j) {
                Some((s, k)) => Some((Some(s), k)),
                None => None,
            }
        } else {
            None
        },
        None => None,
    }
}

/// Parses a file record and checks its size claim, so that whatever
/// parses is well formed.
pub open spec fn p_filedata_at(b: Seq<u8>, i: int) -> Option<(FileDataV, int)> {
    match p_bytes_at(b, i) {
        Some((bytes, j)) => match p_str_at(b, j) {
            Some((name, k)) => match p_opt_str_at(b, k) {
                Some((ext, l)) => match p_u32_at(b, l) {
                    Some((size, m)) => if size as nat == bytes.len() {
                        Some(
                            (
                                FileDataV {
                                    bytes,
                                    file_name: name,
                                    file_extension: ext,
                                    file_size: size as nat,
                                },
                                m,
                            ),
                        )
                    } else {
                        None
                    },
                    None => None,
                },
                None => None,
            },
            None => None,
        },
        None => None,
    }
}

pub open spec fn p_msg_at(b: Seq<u8>, i: int) -> Option<(MessageV, int)> {
    match p_u8_at(b, i) {
        Some((t, j)) => if t == 0u8 {
            match p_filedata_at(b, j) {
                Some((f, k)) => Some((MessageV::File(f), k)),
                None => None,
            }
        } else if t == 1u8 {
            match p_filedata_at(b, j) {
                Some((f, k)) => Some((MessageV::Image(f), k)),
                None => None,
            }
        } else if t == 2u8 {
            match p_str_at(b, j) {
                Some((s, k)) => Some((MessageV::OtherText(s), k)),
                None => None,
            }
        } else if t == 3u8 {
            Some((MessageV::Login, j))
        } else if t == 4u8 {
            Some((MessageV::Exit, j))
        } else {
            None
        },
        None => None,
    }
}

pub open spec fn p_err_at(b: Seq<u8>, i: int) -> Option<(ErrorV, int)> {
    match p_u8_at(b, i) {
        Some((t, j)) => if t == 0u8 {
            Some((ErrorV::DeserializationFailed, j))
        } else if t == 1u8 {
            Some((ErrorV::ReadingFromTCPStreamFailed, j))
        } else if t == 2u8 {
            Some((ErrorV::SerializationFailed, j))
        } else if t == 3u8 {
            match p_str_at(b, j) {
                Some((s, k)) => Some((ErrorV::CannotConstructMessage { provided_str: s }, k)),
                None => None,
            }
        } else if t == 4u8 {
            match p_str_at(b, j) {
                Some((s, k)) => Some((ErrorV::CannotCreateFileData { file_path: s }, k)),
                None => None,
            }
        } else if t == 5u8 {
            Some((ErrorV::ServerConfigurationNotProvided, j))
        } else if t == 6u8 {
            match p_str_at(b, j) {
                Some((s, k)) => Some((ErrorV::CannotDeriveSocketAddress { config: s }, k)),
                None => None,
            }
        } else if t == 7u8 {
            match p_str_at(b, j) {
                Some((s, k)) => Some((ErrorV::CannotWriteFile { output_directory: s }, k)),
                None => None,
            }
        } else {
            None
        },
        None => None,
    }
}

pub open spec fn p_payload_at(b: Seq<u8>, i: int) -> Option<(MsgPayloadV, int)> {
    match p_str_at(b, i) {
        Some((user, j)) => match p_msg_at(b, j) {
            Some((m, k)) => Some((MsgPayloadV { from_user: user, content: m }, k)),
            None => None,
        },
        None => None,
    }
}

pub open spec fn p_env_at(b: Seq<u8>, i: int) -> Option<(EnvelopeV, int)> {
    match p_u8_at(b, i) {
        Some((t, j)) => if t == 0u8 {
            p_env_err_at(b, j, None)
        } else if t == 1u8 {
            match p_payload_at(b, j) {
                Some((p, k)) => p_env_err_at(b, k, Some(p)),
                None => None,
            }
        } else {
            None
        },
        None => None,
    }
}

/// Second half of the envelope: the optional error, paired with the
/// payload already parsed.
pub open spec fn p_env_err_at(b: Seq<u8>, i: int, payload: Option<MsgPayloadV>) -> Option<
    (EnvelopeV, int),
> {
    match p_u8_at(b, i) {
        Some((t, j)) => if t == 0u8 {
            Some((EnvelopeV { payload, error: None }, j))
        } else if t == 1u8 {
            match p_err_at(b, j) {
                Some((err, k)) => Some((EnvelopeV { payload, error: Some(err) }, k)),
                None => None,
            }
        } else {
            None
        },
        None => None,
    }
}

/// The decoded envelope of a byte buffer that holds exactly one
/// frame's payload, or nothing when the bytes do not match the format.
pub open spec fn spec_deserialize(b: Seq<u8>) -> Option<EnvelopeV> {
    match p_env_at(b, 0) {
        Some((e, j)) => if j == b.len() {
            Some(e)
        } else {
            None
        },
        None => None,
    }
}

// ---------------------------------------------------------------------
// Lengths of encodings.
// ---------------------------------------------------------------------
pub proof fn lemma_enc_chars_len(s: Seq<char>)
    ensures
        enc_chars(s).len() == 4 * s.len(),
    decreases s.len(),
{
    lemma_auto_spec_u32_to_from_le_bytes();
    if s.len() > 0 {
        lemma_enc_chars_len(s.drop_first());
    }
}

// ---------------------------------------------------------------------
// Parsing an encoding recovers the value: one lemma per layer.
// ---------------------------------------------------------------------
/// A subrange equal to a concatenation splits into its two halves.
pub proof fn lemma_subrange_split(b: Seq<u8>, i: int, x: Seq<u8>, y: Seq<u8>)
    requires
        0 <= i,
        i + x.len() + y.len() <= b.len(),
        b.subrange(i, i + x.len() + y.len()) == x + y,
    ensures
        b.subrange(i, i + x.len()) == x,
        b.subrange(i + x.len(), i + x.len() + y.len()) == y,
{
    assert forall|k: int| 0 <= k < x.len() + y.len() implies b[i + k] == (x + y)[k] by {
        assert(b.subrange(i, i + x.len() + y.len())[k] == b[i + k]);
    }
    assert(b.subrange(i, i + x.len()) =~= x);
    assert forall|k: int| 0 <= k < y.len() implies b.subrange(
        i + x.len(),
        i + x.len() + y.len(),
    )[k] == y[k] by {
        assert(b[i + (x.len() + k)] == (x + y)[x.len() + k]);
    }
    assert(b.subrange(i + x.len(), i + x.len() + y.len()) =~= y);
}

pub proof fn lemma_p_u8_rt(b: Seq<u8>, i: int, t: u8)
    requires
        0 <= i,
        i + 1 <= b.len(),
        b.subrange(i, i + 1) == seq![t],
    ensures
        p_u8_at(b, i) == Some((t, i + 1)),
{
    assert(b[i] == b.subrange(i, i + 1)[0]);
}

pub proof fn lemma_p_u32_rt(b: Seq<u8>, i: int, n: u32)
    requires
        0 <= i,
        i + 4 <= b.len(),
        b.subrange(i, i + 4) == spec_u32_to_le_bytes(n),
    ensures
        p_u32_at(b, i) == Some((n, i + 4)),
{
    lemma_auto_spec_u32_to_from_le_bytes();
    assert(spec_u32_to_le_bytes(n).len() == 4 && spec_u32_from_le_bytes(spec_u32_to_le_bytes(n))
        == n);
    assert(spec_u32_from_le_bytes(b.subrange(i, i + 4)) == n);
}

pub proof fn lemma_p_char_rt(b: Seq<u8>, i: int, c: char)
    requires
        0 <= i,
        i + 4 <= b.len(),
        b.subrange(i, i + 4) == enc_char(c),
    ensures
        p_char_at(b, i) == Some((c, i + 4)),
{
    lemma_p_u32_rt(b, i, c as u32);
    crate::strutil::lemma_char_cast(c);
}

pub proof fn lemma_p_chars_rt(b: Seq<u8>, i: int, s: Seq<char>)
    requires
        0 <= i,
        i + 4 * s.len() <= b.len(),
        b.subrange(i, i + 4 * s.len()) == enc_chars(s),
    ensures
        p_chars_at(b, i, s.len()) == Some((s, i + 4 * s.len())),
    decreases s.len(),
{
    lemma_auto_spec_u32_to_from_le_bytes();
    if s.len() == 0 {
        assert(s =~= Seq::<char>::empty());
    } else {
        let c = s[0];
        let rest = s.drop_first();
        lemma_enc_chars_len(rest);
        assert(enc_char(c).len() == 4);
        lemma_subrange_split(b, i, enc_char(c), enc_chars(rest));
        lemma_p_char_rt(b, i, c);
        lemma_p_chars_rt(b, i + 4, rest);
        assert(seq![c] + rest =~= s);
    }
}

pub proof fn lemma_p_str_rt(b: Seq<u8>, i: int, s: Seq<char>)
    requires
        fits_str(s),
        0 <= i,
        i + enc_str(s).len() <= b.len(),
        b.subrange(i, i + enc_str(s).len()) == enc_str(s),
    ensures
        p_str_at(b, i) == Some((s, i + enc_str(s).len())),
{
    lemma_auto_spec_u32_to_from_le_bytes();
    lemma_enc_chars_len(s);
    lemma_subrange_split(b, i, enc_len(s.len()), enc_chars(s));
    lemma_p_u32_rt(b, i, s.len() as u32);
    lemma_p_chars_rt(b, i + 4, s);
}

pub proof fn lemma_p_bytes_rt(b: Seq<u8>, i: int, v: Seq<u8>)
    requires
        v.len() <= max_len(),
        0 <= i,
        i + enc_bytes(v).len() <= b.len(),
        b.subrange(i, i + enc_bytes(v).len()) == enc_bytes(v),
    ensures
        p_bytes_at(b, i) == Some((v, i + enc_bytes(v).len())),
{
    lemma_auto_spec_u32_to_from_le_bytes();
    lemma_subrange_split(b, i, enc_len(v.len()), v);
    lemma_p_u32_rt(b, i, v.len() as u32);
}

pub proof fn lemma_p_opt_str_rt(b: Seq<u8>, i: int, o: Option<Seq<char>>)
    requires
        fits_opt_str(o),
        0 <= i,
        i + enc_opt_str(o).len() <= b.len(),
        b.subrange(i, i + enc_opt_str(o).len()) == enc_opt_str(o),
    ensures
        p_opt_str_at(b, i) == Some((o, i + enc_opt_str(o).len())),
{
    match o {
        None => {
            lemma_p_u8_rt(b, i, 0u8);
        },
        Some(s) => {
            lemma_subrange_split(b, i, seq![1u8], enc_str(s));
            lemma_p_u8_rt(b, i, 1u8);
            lemma_p_str_rt(b, i + 1, s);
        },
    }
}

pub proof fn lemma_p_filedata_rt(b: Seq<u8>, i: int, f: FileDataV)
    requires
        fits_filedata(f),
        f.wf(),
        0 <= i,
        i + enc_filedata(f).len() <= b.len(),
        b.subrange(i, i + enc_filedata(f).len()) == enc_filedata(f),
    ensures
        p_filedata_at(b, i) == Some((f, i + enc_filedata(f).len())),
{
    lemma_auto_spec_u32_to_from_le_bytes();
    let e1 = enc_bytes(f.bytes);
    let e2 = enc_str(f.file_name);
    let e3 = enc_opt_str(f.file_extension);
    let e4 = enc_len(f.file_size);
    assert(enc_filedata(f) =~= e1 + (e2 + (e3 + e4)));
    lemma_subrange_split(b, i, e1, e2 + (e3 + e4));
    let j = i + e1.len();
    lemma_subrange_split(b, j, e2, e3 + e4);
    let k = j + e2.len();
    lemma_subrange_split(b, k, e3, e4);
    let l = k + e3.len();
    lemma_p_bytes_rt(b, i, f.bytes);
    lemma_p_str_rt(b, j, f.file_name);
    lemma_p_opt_str_rt(b, k, f.file_extension);
    lemma_p_u32_rt(b, l, f.file_size as u32);
}

pub proof fn lemma_p_msg_rt(b: Seq<u8>, i: int, m: MessageV)
    requires
        fits_msg(m),
        m.wf(),
        0 <= i,
        i + enc_msg(m).len() <= b.len(),
        b.subrange(i, i + enc_msg(m).len()) == enc_msg(m),
    ensures
        p_msg_at(b, i) == Some((m, i + enc_msg(m).len())),
{
    match m {
        MessageV::File(f) => {
            lemma_subrange_split(b, i, seq![0u8], enc_filedata(f));
            lemma_p_u8_rt(b, i, 0u8);
            lemma_p_filedata_rt(b, i + 1, f);
        },
        MessageV::Image(f) => {
            lemma_subrange_split(b, i, seq![1u8], enc_filedata(f));
            lemma_p_u8_rt(b, i, 1u8);
            lemma_p_filedata_rt(b, i + 1, f);
        },
        MessageV::OtherText(t) => {
            lemma_subrange_split(b, i, seq![2u8], enc_str(t));
            lemma_p_u8_rt(b, i, 2u8);
            lemma_p_str_rt(b, i + 1, t);
        },
        MessageV::Login => {
            lemma_p_u8_rt(b, i, 3u8);
        },
        MessageV::Exit => {
            lemma_p_u8_rt(b, i, 4u8);
        },
    }
}

pub proof fn lemma_p_err_rt(b: Seq<u8>, i: int, e: ErrorV)
    requires
        fits_err(e),
        0 <= i,
        i + enc_err(e).len() <= b.len(),
        b.subrange(i, i + enc_err(e).len()) == enc_err(e),
    ensures
        p_err_at(b, i) == Some((e, i + enc_err(e).len())),
{
    match e {
        ErrorV::DeserializationFailed => {
            lemma_p_u8_rt(b, i, 0u8);
        },
        ErrorV::ReadingFromTCPStreamFailed => {
            lemma_p_u8_rt(b, i, 1u8);
        },
        ErrorV::SerializationFailed => {
            lemma_p_u8_rt(b, i, 2u8);
        },
        ErrorV::CannotConstructMessage { provided_str } => {
            lemma_subrange_split(b, i, seq![3u8], enc_str(provided_str));
            lemma_p_u8_rt(b, i, 3u8);
            lemma_p_str_rt(b, i + 1, provided_str);
        },
        ErrorV::CannotCreateFileData { file_path } => {
            lemma_subrange_split(b, i, seq![4u8], enc_str(file_path));
            lemma_p_u8_rt(b, i, 4u8);
            lemma_p_str_rt(b, i + 1, file_path);
        },
        ErrorV::ServerConfigurationNotProvided => {
            lemma_p_u8_rt(b, i, 5u8);
        },
        ErrorV::CannotDeriveSocketAddress { config } => {
            lemma_subrange_split(b, i, seq![6u8], enc_str(config));
            lemma_p_u8_rt(b, i, 6u8);
            lemma_p_str_rt(b, i + 1, config);
        },
        ErrorV::CannotWriteFile { output_directory } => {
            lemma_subrange_split(b, i, seq![7u8], enc_str(output_directory));
            lemma_p_u8_rt(b, i, 7u8);
            lemma_p_str_rt(b, i + 1, output_directory);
        },
    }
}

pub proof fn lemma_p_payload_rt(b: Seq<u8>, i: int, p: MsgPayloadV)
    requires
        fits_payload(p),
        p.wf(),
        0 <= i,
        i + enc_payload(p).len() <= b.len(),
        b.subrange(i, i + enc_payload(p).len()) == enc_payload(p),
    ensures
        p_payload_at(b, i) == Some((p, i + enc_payload(p).len())),
{
    lemma_subrange_split(b, i, enc_str(p.from_user), enc_msg(p.content));
    lemma_p_str_rt(b, i, p.from_user);
    lemma_p_msg_rt(b, i + enc_str(p.from_user).len(), p.content);
}

pub proof fn lemma_p_env_rt(b: Seq<u8>, i: int, e: EnvelopeV)
    requires
        fits_parts(e),
        e.wf(),
        0 <= i,
        i + enc_env(e).len() <= b.len(),
        b.subrange(i, i + enc_env(e).len()) == enc_env(e),
    ensures
        p_env_at(b, i) == Some((e, i + enc_env(e).len())),
{
    let ep = match e.payload {
        None => seq![0u8],
        Some(p) => seq![1u8] + enc_payload(p),
    };
    let ee = match e.error {
        None => seq![0u8],
        Some(err) => seq![1u8] + enc_err(err),
    };
    lemma_subrange_split(b, i, ep, ee);
    let j = i + ep.len();
    match e.payload {
        None => {
            lemma_p_u8_rt(b, i, 0u8);
        },
        Some(p) => {
            lemma_subrange_split(b, i, seq![1u8], enc_payload(p));
            lemma_p_u8_rt(b, i, 1u8);
            lemma_p_payload_rt(b, i + 1, p);
        },
    }
    match e.error {
        None => {
            lemma_p_u8_rt(b, j, 0u8);
        },
        Some(err) => {
            lemma_subrange_split(b, j, seq![1u8], enc_err(err));
            lemma_p_u8_rt(b, j, 1u8);
            lemma_p_err_rt(b, j + 1, err);
        },
    }
}

/// Round trip at the payload level: decoding an encoded envelope
/// yields that envelope, for every well-formed envelope whose lengths
/// fit the wire format.
pub proof fn lemma_round_trip(e: EnvelopeV)
    requires
        e.wf(),
        fits_parts(e),
    ensures
        spec_deserialize(enc_env(e)) == Some(e),
{
    let b = enc_env(e);
    assert(b.subrange(0, b.len() as int) =~= b);
    lemma_p_env_rt(b, 0, e);
}

/// Round trip at the frame level: stripping the 4-byte prefix of an
/// encoded frame and decoding what follows yields the envelope again.
pub proof fn lemma_frame_round_trip(e: EnvelopeV)
    requires
        spec_serializable(e),
    ensures
        spec_serialize(e).skip(4) == enc_env(e),
        spec_deserialize(spec_serialize(e).skip(4)) == Some(e),
{
    lemma_auto_spec_u32_to_from_le_bytes();
    assert(spec_serialize(e).skip(4) =~= enc_env(e));
    lemma_round_trip(e);
}

/// The first four bytes of an encoded frame, read little endian, give
/// exactly the frame length minus the prefix itself.
pub proof fn lemma_prefix_correct(e: EnvelopeV)
    requires
        spec_serializable(e),
    ensures
        spec_serialize(e).len() == 4 + enc_env(e).len(),
        spec_u32_from_le_bytes(spec_serialize(e).subrange(0, 4)) == spec_serialize(e).len() - 4,
{
    lemma_auto_spec_u32_to_from_le_bytes();
    assert(spec_serialize(e).subrange(0, 4) =~= enc_len(enc_env(e).len()));
}

/// Appending one character extends the encoding at its end.
pub proof fn lemma_enc_chars_push(s: Seq<char>, c: char)
    ensures
        enc_chars(s.push(c)) == enc_chars(s) + enc_char(c),
    decreases s.len(),
{
    if s.len() == 0 {
        assert(s.push(c).drop_first() =~= Seq::<char>::empty());
        assert(s.push(c)[0] == c);
        assert(enc_chars(Seq::<char>::empty()) == Seq::<u8>::empty());
        assert(enc_chars(s.push(c)) =~= enc_char(c));
        assert(enc_chars(s) + enc_char(c) =~= enc_char(c));
    } else {
        assert(s.push(c).drop_first() =~= s.drop_first().push(c));
        lemma_enc_chars_push(s.drop_first(), c);
        assert(enc_chars(s.push(c)) =~= enc_chars(s) + enc_char(c));
    }
}

// ---------------------------------------------------------------------
// Parsing is sound: whatever parses is the exact encoding of its
// result, one lemma per layer.
// ---------------------------------------------------------------------
/// A subrange splits at any midpoint into its two halves.
pub proof fn lemma_subrange_join(b: Seq<u8>, i: int, m: int, j: int)
    requires
        0 <= i <= m <= j <= b.len(),
    ensures
        b.subrange(i, j) == b.subrange(i, m) + b.subrange(m, j),
{
    assert(b.subrange(i, j) =~= b.subrange(i, m) + b.subrange(m, j));
}

pub proof fn lemma_p_u8_sound(b: Seq<u8>, i: int)
    ensures
        match p_u8_at(b, i) {
            Some((t, j)) => j == i + 1 && 0 <= i && j <= b.len() && b.subrange(i, j) == seq![t],
            None => true,
        },
{
    if let Some((t, j)) = p_u8_at(b, i) {
        assert(b.subrange(i, i + 1) =~= seq![t]);
    }
}

pub proof fn lemma_p_u32_sound(b: Seq<u8>, i: int)
    ensures
        match p_u32_at(b, i) {
            Some((u, j)) => j == i + 4 && 0 <= i && j <= b.len() && b.subrange(i, j)
                == spec_u32_to_le_bytes(u),
            None => true,
        },
{
    lemma_auto_spec_u32_to_from_le_bytes();
    if let Some((u, j)) = p_u32_at(b, i) {
        assert(b.subrange(i, i + 4).len() == 4);
    }
}

pub proof fn lemma_p_char_sound(b: Seq<u8>, i: int)
    ensures
        match p_char_at(b, i) {
            Some((c, j)) => j == i + 4 && 0 <= i && j <= b.len() && b.subrange(i, j) == enc_char(c),
            None => true,
        },
{
    lemma_p_u32_sound(b, i);
    if let Some((c, j)) = p_char_at(b, i) {
        let (u, _) = p_u32_at(b, i)->Some_0;
        crate::strutil::lemma_scalar_cast(u);
    }
}

pub proof fn lemma_p_chars_sound(b: Seq<u8>, i: int, n: nat)
    ensures
        match p_chars_at(b, i, n) {
            Some((s, j)) => {
                &&& s.len() == n
                &&& 0 <= i <= j <= b.len() || n == 0
                &&& j == i + 4 * n || n == 0
                &&& (n > 0 ==> b.subrange(i, j) == enc_chars(s))
                &&& (n == 0 ==> j == i)
            },
            None => true,
        },
    decreases n,
{
    if n == 0 {
    } else {
        lemma_p_char_sound(b, i);
        if let Some((c, m)) = p_char_at(b, i) {
            lemma_p_chars_sound(b, m, (n - 1) as nat);
            if let Some((s2, j)) = p_chars_at(b, m, (n - 1) as nat) {
                if n == 1 {
                    assert(seq![c] + s2 =~= seq![c]);
                    assert(seq![c].drop_first() =~= Seq::<char>::empty());
                    assert(enc_chars(Seq::<char>::empty()) == Seq::<u8>::empty());
                    assert(enc_chars(seq![c]) =~= enc_char(c));
                } else {
                    lemma_subrange_join(b, i, m, j);
                    assert((seq![c] + s2).drop_first() =~= s2);
                    assert(enc_chars(seq![c] + s2) =~= enc_char(c) + enc_chars(s2));
                }
            }
        }
    }
}

pub proof fn lemma_p_str_sound(b: Seq<u8>, i: int)
    ensures
        match p_str_at(b, i) {
            Some((s, j)) => {
                &&& fits_str(s)
                &&& 0 <= i <= j <= b.len()
                &&& j == i + enc_str(s).len()
                &&& b.subrange(i, j) == enc_str(s)
            },
            None => true,
        },
{
    lemma_auto_spec_u32_to_from_le_bytes();
    lemma_p_u32_sound(b, i);
    if let Some((n, m)) = p_u32_at(b, i) {
        lemma_p_chars_sound(b, m, n as nat);
        if let Some((s, j)) = p_chars_at(b, m, n as nat) {
            lemma_enc_chars_len(s);
            if n == 0 {
                assert(enc_chars(s) =~= Seq::<u8>::empty());
                assert(b.subrange(i, m) + enc_chars(s) =~= b.subrange(i, m));
            } else {
                lemma_subrange_join(b, i, m, j);
            }
        }
    }
}

pub proof fn lemma_p_bytes_sound(b: Seq<u8>, i: int)
    ensures
        match p_bytes_at(b, i) {
            Some((v, j)) => {
                &&& v.len() <= max_len()
                &&& 0 <= i <= j <= b.len()
                &&& j == i + enc_bytes(v).len()
                &&& b.subrange(i, j) == enc_bytes(v)
            },
            None => true,
        },
{
    lemma_auto_spec_u32_to_from_le_bytes();
    lemma_p_u32_sound(b, i);
    if let Some((n, m)) = p_u32_at(b, i) {
        if m + n <= b.len() {
            lemma_subrange_join(b, i, m, m + n);
        }
    }
}

pub proof fn lemma_p_opt_str_sound(b: Seq<u8>, i: int)
    ensures
        match p_opt_str_at(b, i) {
            Some((o, j)) => {
                &&& fits_opt_str(o)
                &&& 0 <= i <= j <= b.len()
                &&& j == i + enc_opt_str(o).len()
                &&& b.subrange(i, j) == enc_opt_str(o)
            },
            None => true,
        },
{
    lemma_p_u8_sound(b, i);
    if let Some((t, m)) = p_u8_at(b, i) {
        if t == 1 {
            lemma_p_str_sound(b, m);
            if let Some((s, j)) = p_str_at(b, m) {
                lemma_subrange_join(b, i, m, j);
            }
        }
    }
}

pub proof fn lemma_p_filedata_sound(b: Seq<u8>, i: int)
    ensures
        match p_filedata_at(b, i) {
            Some((f, j)) => {
                &&& fits_filedata(f)
                &&& f.wf()
                &&& 0 <= i <= j <= b.len()
                &&& j == i + enc_filedata(f).len()
                &&& b.subrange(i, j) == enc_filedata(f)
            },
            None => true,
        },
{
    lemma_auto_spec_u32_to_from_le_bytes();
    lemma_p_bytes_sound(b, i);
    if let Some((bytes, m1)) = p_bytes_at(b, i) {
        lemma_p_str_sound(b, m1);
        if let Some((name, m2)) = p_str_at(b, m1) {
            lemma_p_opt_str_sound(b, m2);
            if let Some((ext, m3)) = p_opt_str_at(b, m2) {
                lemma_p_u32_sound(b, m3);
                if let Some((size, j)) = p_u32_at(b, m3) {
                    if size as nat == bytes.len() {
                        lemma_subrange_join(b, m2, m3, j);
                        lemma_subrange_join(b, m1, m2, j);
                        lemma_subrange_join(b, i, m1, j);
                        let f = p_filedata_at(b, i)->Some_0.0;
                        assert(enc_filedata(f) =~= enc_bytes(bytes) + enc_str(name) + enc_opt_str(
                            ext,
                        ) + enc_len(size as nat));
                    }
                }
            }
        }
    }
}

pub proof fn lemma_p_msg_sound(b: Seq<u8>, i: int)
    ensures
        match p_msg_at(b, i) {
            Some((m, j)) => {
                &&& fits_msg(m)
                &&& m.wf()
                &&& 0 <= i <= j <= b.len()
                &&& j == i + enc_msg(m).len()
                &&& b.subrange(i, j) == enc_msg(m)
            },
            None => true,
        },
{
    lemma_p_u8_sound(b, i);
    if let Some((t, m)) = p_u8_at(b, i) {
        if t == 0 || t == 1 {
            lemma_p_filedata_sound(b, m);
            if let Some((f, j)) = p_filedata_at(b, m) {
                lemma_subrange_join(b, i, m, j);
            }
        } else if t == 2 {
            lemma_p_str_sound(b, m);
            if let Some((s, j)) = p_str_at(b, m) {
                lemma_subrange_join(b, i, m, j);
            }
        }
    }
}

pub proof fn lemma_p_err_sound(b: Seq<u8>, i: int)
    ensures
        match p_err_at(b, i) {
            Some((e, j)) => {
                &&& fits_err(e)
                &&& 0 <= i <= j <= b.len()
                &&& j == i + enc_err(e).len()
                &&& b.subrange(i, j) == enc_err(e)
            },
            None => true,
        },
{
    lemma_p_u8_sound(b, i);
    if let Some((t, m)) = p_u8_at(b, i) {
        if t == 3 || t == 4 || t == 6 || t == 7 {
            lemma_p_str_sound(b, m);
            if let Some((s, j)) = p_str_at(b, m) {
                lemma_subrange_join(b, i, m, j);
            }
        }
    }
}

pub proof fn lemma_p_payload_sound(b: Seq<u8>, i: int)
    ensures
        match p_payload_at(b, i) {
            Some((p, j)) => {
                &&& fits_payload(p)
                &&& p.wf()
                &&& 0 <= i <= j <= b.len()
                &&& j == i + enc_payload(p).len()
                &&& b.subrange(i, j) == enc_payload(p)
            },
            None => true,
        },
{
    lemma_p_str_sound(b, i);
    if let Some((user, m)) = p_str_at(b, i) {
        lemma_p_msg_sound(b, m);
        if let Some((msg, j)) = p_msg_at(b, m) {
            lemma_subrange_join(b, i, m, j);
        }
    }
}

pub proof fn lemma_p_env_sound(b: Seq<u8>, i: int)
    ensures
        match p_env_at(b, i) {
            Some((e, j)) => {
                &&& fits_parts(e)
                &&& e.wf()
                &&& 0 <= i <= j <= b.len()
                &&& j == i + enc_env(e).len()
                &&& b.subrange(i, j) == enc_env(e)
            },
            None => true,
        },
{
    lemma_p_u8_sound(b, i);
    if let Some((t, m)) = p_u8_at(b, i) {
        if t == 0 {
            lemma_p_env_err_sound(b, m, None);
            if let Some((e, j)) = p_env_err_at(b, m, None) {
                lemma_subrange_join(b, i, m, j);
                assert(enc_env(e) =~= seq![0u8] + (b.subrange(m, j)));
            }
        } else if t == 1 {
            lemma_p_payload_sound(b, m);
            if let Some((p, m2)) = p_payload_at(b, m) {
                lemma_p_env_err_sound(b, m2, Some(p));
                if let Some((e, j)) = p_env_err_at(b, m2, Some(p)) {
                    lemma_subrange_join(b, m, m2, j);
                    lemma_subrange_join(b, i, m, j);
                    assert(enc_env(e) =~= (seq![1u8] + enc_payload(p)) + b.subrange(m2, j));
                }
            }
        }
    }
}

proof fn lemma_p_env_err_sound(b: Seq<u8>, i: int, payload: Option<MsgPayloadV>)
    ensures
        match p_env_err_at(b, i, payload) {
            Some((e, j)) => {
                &&& e.payload == payload
                &&& (match e.error {
                    None => true,
                    Some(err) => fits_err(err),
                })
                &&& 0 <= i <= j <= b.len()
                &&& j == i + (match e.error {
                    None => seq![0u8],
                    Some(err) => seq![1u8] + enc_err(err),
                }).len()
                &&& b.subrange(i, j) == (match e.error {
                    None => seq![0u8],
                    Some(err) => seq![1u8] + enc_err(err),
                })
            },
            None => true,
        },
{
    lemma_p_u8_sound(b, i);
    if let Some((t, m)) = p_u8_at(b, i) {
        if t == 1 {
            lemma_p_err_sound(b, m);
            if let Some((err, j)) = p_err_at(b, m) {
                lemma_subrange_join(b, i, m, j);
            }
        }
    }
}

/// Decoding is sound: a buffer that decodes is exactly the encoding
/// of what it decodes to, and that envelope is well formed with every
/// length in range. So re-encoding a decoded envelope gives back the
/// very bytes that arrived.
pub proof fn lemma_deserialize_sound(b: Seq<u8>)
    ensures
        match spec_deserialize(b) {
            Some(e) => {
                &&& e.wf()
                &&& fits_parts(e)
                &&& enc_env(e) == b
                &&& b.len() <= max_len() ==> spec_serializable(e) && spec_serialize(e) == enc_len(
                    b.len(),
                ) + b
            },
            None => true,
        },
{
    lemma_p_env_sound(b, 0);
    if let Some(e) = spec_deserialize(b) {
        assert(b.subrange(0, b.len() as int) =~= b);
    }
}
/// The view of an optional string.
pub open spec fn opt_str_view(o: Option<String>) -> Option<Seq<char>> {
    match o {
        Some(s) => Some(s@),
        None => None,
    }
}

fn enc_u32_exec(n: u32, out: &mut Vec<u8>)
    ensures
        final(out)@ == old(out)@ + spec_u32_to_le_bytes(n),
{
    let mut b = u32_to_le_bytes(n);
    out.append(&mut b);
}

fn enc_str_exec(s: &str, out: &mut Vec<u8>) -> (ok: bool)
    ensures
        ok == fits_str(s@),
        ok ==> final(out)@ == old(out)@ + enc_str(s@),
{
    let n = s.unicode_len();
    if n > 0xffff_ffffusize {
        return false;
    }
    enc_u32_exec(n as u32, out);
    let mut i: usize = 0;
    while i < n
        invariant
            i <= n,
            n == s@.len(),
            n <= 0xffff_ffff,
            out@ == old(out)@ + enc_len(s@.len()) + enc_chars(s@.take(i as int)),
        decreases n - i,
    {
        let c = s.get_char(i);
        enc_u32_exec(c as u32, out);
        proof {
            lemma_enc_chars_push(s@.take(i as int), s@[i as int]);
            assert(s@.take(i as int).push(s@[i as int]) =~= s@.take(i + 1));
        }
        i += 1;
    }
    proof {
        assert(s@.take(n as int) =~= s@);
        assert(old(out)@ + enc_len(s@.len()) + enc_chars(s@) =~= old(out)@ + enc_str(s@));
    }
    true
}

fn enc_bytes_exec(v: &Vec<u8>, out: &mut Vec<u8>) -> (ok: bool)
    ensures
        ok == (v@.len() <= max_len()),
        ok ==> final(out)@ == old(out)@ + enc_bytes(v@),
{
    let n = v.len();
    if n > 0xffff_ffffusize {
        return false;
    }
    enc_u32_exec(n as u32, out);
    out.extend_from_slice(v.as_slice());
    proof {
        assert(old(out)@ + enc_len(v@.len()) + v@ =~= old(out)@ + enc_bytes(v@));
    }
    true
}

fn enc_opt_str_exec(o: &Option<String>, out: &mut Vec<u8>) -> (ok: bool)
    ensures
        ok == fits_opt_str(opt_str_view(*o)),
        ok ==> final(out)@ == old(out)@ + enc_opt_str(opt_str_view(*o)),
{
    match o {
        None => {
            out.push(0u8);
            proof {
                assert(old(out)@.push(0u8) =~= old(out)@ + seq![0u8]);
            }
            true
        },
        Some(s) => {
            out.push(1u8);
            let ok = enc_str_exec(s.as_str(), out);
            proof {
                if ok {
                    assert(old(out)@.push(1u8) + enc_str(s@) =~= old(out)@ + enc_opt_str(
                        opt_str_view(*o),
                    ));
                }
            }
            ok
        },
    }
}

fn enc_filedata_exec(f: &FileData, out: &mut Vec<u8>) -> (ok: bool)
    ensures
        ok == fits_filedata(f@),
        ok ==> final(out)@ == old(out)@ + enc_filedata(f@),
{
    if !enc_bytes_exec(&f.bytes, out) {
        return false;
    }
    if !enc_str_exec(f.file_name.as_str(), out) {
        return false;
    }
    if !enc_opt_str_exec(&f.file_extension, out) {
        return false;
    }
    if f.file_size > 0xffff_ffffusize {
        return false;
    }
    enc_u32_exec(f.file_size as u32, out);
    proof {
        assert(old(out)@ + enc_bytes(f@.bytes) + enc_str(f@.file_name) + enc_opt_str(
            f@.file_extension,
        ) + enc_len(f@.file_size) =~= old(out)@ + enc_filedata(f@));
    }
    true
}

fn enc_msg_exec(m: &Message, out: &mut Vec<u8>) -> (ok: bool)
    ensures
        ok == fits_msg(m@),
        ok ==> final(out)@ == old(out)@ + enc_msg(m@),
{
    match m {
        Message::File(f) => {
            out.push(0u8);
            let ok = enc_filedata_exec(f, out);
            proof {
                if ok {
                    assert(old(out)@.push(0u8) + enc_filedata(f@) =~= old(out)@ + enc_msg(m@));
                }
            }
            ok
        },
        Message::Image(f) => {
            out.push(1u8);
            let ok = enc_filedata_exec(f, out);
            proof {
                if ok {
                    assert(old(out)@.push(1u8) + enc_filedata(f@) =~= old(out)@ + enc_msg(m@));
                }
            }
            ok
        },
        Message::OtherText(t) => {
            out.push(2u8);
            let ok = enc_str_exec(t.as_str(), out);
            proof {
                if ok {
                    assert(old(out)@.push(2u8) + enc_str(t@) =~= old(out)@ + enc_msg(m@));
                }
            }
            ok
        },
        Message::Login => {
            out.push(3u8);
            proof {
                assert(old(out)@.push(3u8) =~= old(out)@ + enc_msg(m@));
            }
            true
        },
        Message::Exit => {
            out.push(4u8);
            proof {
                assert(old(out)@.push(4u8) =~= old(out)@ + enc_msg(m@));
            }
            true
        },
    }
}

fn enc_err_exec(e: &MsgSystemError, out: &mut Vec<u8>) -> (ok: bool)
    ensures
        ok == fits_err(e@),
        ok ==> final(out)@ == old(out)@ + enc_err(e@),
{
    let (tag, arg): (u8, Option<&String>) = match e {
        MsgSystemError::DeserializationFailed => (0u8, None),
        MsgSystemError::ReadingFromTCPStreamFailed => (1u8, None),
        MsgSystemError::SerializationFailed => (2u8, None),
        MsgSystemError::CannotConstructMessage { provided_str } => (3u8, Some(provided_str)),
        MsgSystemError::CannotCreateFileData { file_path } => (4u8, Some(file_path)),
        MsgSystemError::ServerConfigurationNotProvided => (5u8, None),
        MsgSystemError::CannotDeriveSocketAddress { config } => (6u8, Some(config)),
        MsgSystemError::CannotWriteFile { output_directory } => (7u8, Some(output_directory)),
    };
    out.push(tag);
    match arg {
        None => {
            proof {
                assert(old(out)@.push(tag) =~= old(out)@ + enc_err(e@));
            }
            true
        },
        Some(s) => {
            let ok = enc_str_exec(s.as_str(), out);
            proof {
                if ok {
                    assert(old(out)@.push(tag) + enc_str(s@) =~= old(out)@ + enc_err(e@));
                }
            }
            ok
        },
    }
}

fn enc_payload_exec(p: &MsgPayload, out: &mut Vec<u8>) -> (ok: bool)
    ensures
        ok == fits_payload(p@),
        ok ==> final(out)@ == old(out)@ + enc_payload(p@),
{
    if !enc_str_exec(p.from_user.as_str(), out) {
        return false;
    }
    let ok = enc_msg_exec(&p.content, out);
    proof {
        if ok {
            assert(old(out)@ + enc_str(p@.from_user) + enc_msg(p@.content) =~= old(out)@
                + enc_payload(p@));
        }
    }
    ok
}

fn enc_env_exec(e: &MessageEnvelope, out: &mut Vec<u8>) -> (ok: bool)
    ensures
        ok == fits_parts(e@),
        ok ==> final(out)@ == old(out)@ + enc_env(e@),
{
    let ghost ep: Seq<u8> = match e@.payload {
        None => seq![0u8],
        Some(p) => seq![1u8] + enc_payload(p),
    };
    match &e.payload {
        None => {
            out.push(0u8);
            proof {
                assert(old(out)@.push(0u8) =~= old(out)@ + ep);
            }
        },
        Some(p) => {
            out.push(1u8);
            if !enc_payload_exec(p, out) {
                return false;
            }
            proof {
                assert(old(out)@.push(1u8) + enc_payload(p@) =~= old(out)@ + ep);
            }
        },
    }
    match &e.error {
        None => {
            out.push(0u8);
            proof {
                assert((old(out)@ + ep).push(0u8) =~= old(out)@ + enc_env(e@));
            }
            true
        },
        Some(err) => {
            out.push(1u8);
            let ok = enc_err_exec(err, out);
            proof {
                if ok {
                    assert((old(out)@ + ep).push(1u8) + enc_err(err@) =~= old(out)@ + enc_env(e@));
                }
            }
            ok
        },
    }
}

// ---------------------------------------------------------------------
// Executable parsing. Each function reads at the cursor `*i` and
// advances it past what it consumed.
// ---------------------------------------------------------------------
fn p_u8(b: &[u8], i: &mut usize) -> (r: Option<u8>)
    requires
        *old(i) <= b@.len(),
    ensures
        *final(i) <= b@.len(),
        match r {
            Some(t) => p_u8_at(b@, *old(i) as int) == Some((t, *final(i) as int)),
            None => p_u8_at(b@, *old(i) as int) is None && *final(i) == *old(i),
        },
{
    if *i < b.len() {
        let t = *slice_index_get(b, *i);
        *i += 1;
        Some(t)
    } else {
        None
    }
}

fn p_u32(b: &[u8], i: &mut usize) -> (r: Option<u32>)
    requires
        *old(i) <= b@.len(),
    ensures
        *final(i) <= b@.len(),
        match r {
            Some(u) => p_u32_at(b@, *old(i) as int) == Some((u, *final(i) as int)),
            None => p_u32_at(b@, *old(i) as int) is None && *final(i) == *old(i),
        },
{
    if b.len() - *i >= 4 {
        let s = slice_subrange(b, *i, *i + 4);
        let u = u32_from_le_bytes(s);
        *i += 4;
        Some(u)
    } else {
        None
    }
}

fn p_char(b: &[u8], i: &mut usize) -> (r: Option<char>)
    requires
        *old(i) <= b@.len(),
    ensures
        *final(i) <= b@.len(),
        match r {
            Some(c) => p_char_at(b@, *old(i) as int) == Some((c, *final(i) as int)),
            None => p_char_at(b@, *old(i) as int) is None,
        },
{
    match p_u32(b, i) {
        Some(u) => code_to_char(u),
        None => None,
    }
}

fn p_chars(b: &[u8], i: &mut usize, n: u32) -> (r: Option<String>)
    requires
        *old(i) <= b@.len(),
    ensures
        *final(i) <= b@.len(),
        match r {
            Some(s) => p_chars_at(b@, *old(i) as int, n as nat) == Some((s@, *final(i) as int)),
            None => p_chars_at(b@, *old(i) as int, n as nat) is None,
        },
{
    let mut acc = String::new();
    let mut k: u32 = 0;
    proof {
        if let Some((s2, j)) = p_chars_at(b@, *i as int, n as nat) {
            assert(Seq::<char>::empty() + s2 =~= s2);
        }
    }
    while k < n
        invariant
            *i <= b@.len(),
            k <= n,
            p_chars_at(b@, *old(i) as int, n as nat) == (match p_chars_at(
                b@,
                *i as int,
                (n - k) as nat,
            ) {
                Some((s2, j)) => Some((acc@ + s2, j)),
                None => None::<(Seq<char>, int)>,
            }),
        decreases n - k,
    {
        match p_char(b, i) {
            Some(c) => {
                proof {
                    if let Some((s3, j)) = p_chars_at(b@, *i as int, (n - k - 1) as nat) {
                        assert(acc@ + (seq![c] + s3) =~= acc@.push(c) + s3);
                    }
                }
                push_char(&mut acc, c);
                k += 1;
            },
            None => {
                return None;
            },
        }
    }
    proof {
        assert(acc@ + Seq::<char>::empty() =~= acc@);
    }
    Some(acc)
}

fn p_str(b: &[u8], i: &mut usize) -> (r: Option<String>)
    requires
        *old(i) <= b@.len(),
    ensures
        *final(i) <= b@.len(),
        match r {
            Some(s) => p_str_at(b@, *old(i) as int) == Some((s@, *final(i) as int)),
            None => p_str_at(b@, *old(i) as int) is None,
        },
{
    match p_u32(b, i) {
        Some(n) => p_chars(b, i, n),
        None => None,
    }
}

fn p_bytes(b: &[u8], i: &mut usize) -> (r: Option<Vec<u8>>)
    requires
        *old(i) <= b@.len(),
    ensures
        *final(i) <= b@.len(),
        match r {
            Some(v) => p_bytes_at(b@, *old(i) as int) == Some((v@, *final(i) as int)),
            None => p_bytes_at(b@, *old(i) as int) is None,
        },
{
    match p_u32(b, i) {
        Some(n) => {
            let len = n as usize;
            if b.len() - *i >= len {
                let s = slice_subrange(b, *i, *i + len);
                let v = slice_to_vec(s);
                *i += len;
                Some(v)
            } else {
                None
            }
        },
        None => None,
    }
}

fn p_opt_str(b: &[u8], i: &mut usize) -> (r: Option<Option<String>>)
    requires
        *old(i) <= b@.len(),
    ensures
        *final(i) <= b@.len(),
        match r {
            Some(o) => p_opt_str_at(b@, *old(i) as int) == Some(
                (opt_str_view(o), *final(i) as int),
            ),
            None => p_opt_str_at(b@, *old(i) as int) is None,
        },
{
    match p_u8(b, i) {
        Some(t) => {
            if t == 0 {
                Some(None)
            } else if t == 1 {
                match p_str(b, i) {
                    Some(s) => Some(Some(s)),
                    None => None,
                }
            } else {
                None
            }
        },
        None => None,
    }
}

fn p_filedata(b: &[u8], i: &mut usize) -> (r: Option<FileData>)
    requires
        *old(i) <= b@.len(),
    ensures
        *final(i) <= b@.len(),
        match r {
            Some(f) => p_filedata_at(b@, *old(i) as int) == Some((f@, *final(i) as int)),
            None => p_filedata_at(b@, *old(i) as int) is None,
        },
{
    let bytes = match p_bytes(b, i) {
        Some(v) => v,
        None => {
            return None;
        },
    };
    let file_name = match p_str(b, i) {
        Some(s) => s,
        None => {
            return None;
        },
    };
    let file_extension = match p_opt_str(b, i) {
        Some(o) => o,
        None => {
            return None;
        },
    };
    let size = match p_u32(b, i) {
        Some(u) => u,
        None => {
            return None;
        },
    };
    if size as usize == bytes.len() {
        Some(FileData { bytes, file_name, file_extension, file_size: size as usize })
    } else {
        None
    }
}

fn p_msg(b: &[u8], i: &mut usize) -> (r: Option<Message>)
    requires
        *old(i) <= b@.len(),
    ensures
        *final(i) <= b@.len(),
        match r {
            Some(m) => p_msg_at(b@, *old(i) as int) == Some((m@, *final(i) as int)),
            None => p_msg_at(b@, *old(i) as int) is None,
        },
{
    match p_u8(b, i) {
        Some(t) => {
            if t == 0 {
                match p_filedata(b, i) {
                    Some(f) => Some(Message::File(f)),
                    None => None,
                }
            } else if t == 1 {
                match p_filedata(b, i) {
                    Some(f) => Some(Message::Image(f)),
                    None => None,
                }
            } else if t == 2 {
                match p_str(b, i) {
                    Some(s) => Some(Message::OtherText(s)),
                    None => None,
                }
            } else if t == 3 {
                Some(Message::Login)
            } else if t == 4 {
                Some(Message::Exit)
            } else {
                None
            }
        },
        None => None,
    }
}

fn p_err(b: &[u8], i: &mut usize) -> (r: Option<MsgSystemError>)
    requires
        *old(i) <= b@.len(),
    ensures
        *final(i) <= b@.len(),
        match r {
            Some(e) => p_err_at(b@, *old(i) as int) == Some((e@, *final(i) as int)),
            None => p_err_at(b@, *old(i) as int) is None,
        },
{
    match p_u8(b, i) {
        Some(t) => {
            if t == 0 {
                Some(MsgSystemError::DeserializationFailed)
            } else if t == 1 {
                Some(MsgSystemError::ReadingFromTCPStreamFailed)
            } else if t == 2 {
                Some(MsgSystemError::SerializationFailed)
            } else if t == 3 {
                match p_str(b, i) {
                    Some(s) => Some(MsgSystemError::CannotConstructMessage { provided_str: s }),
                    None => None,
                }
            } else if t == 4 {
                match p_str(b, i) {
                    Some(s) => Some(MsgSystemError::CannotCreateFileData { file_path: s }),
                    None => None,
                }
            } else if t == 5 {
                Some(MsgSystemError::ServerConfigurationNotProvided)
            } else if t == 6 {
                match p_str(b, i) {
                    Some(s) => Some(MsgSystemError::CannotDeriveSocketAddress { config: s }),
                    None => None,
                }
            } else if t == 7 {
                match p_str(b, i) {
                    Some(s) => Some(MsgSystemError::CannotWriteFile { output_directory: s }),
                    None => None,
                }
            } else {
                None
            }
        },
        None => None,
    }
}

fn p_payload(b: &[u8], i: &mut usize) -> (r: Option<MsgPayload>)
    requires
        *old(i) <= b@.len(),
    ensures
        *final(i) <= b@.len(),
        match r {
            Some(p) => p_payload_at(b@, *old(i) as int) == Some((p@, *final(i) as int)),
            None => p_payload_at(b@, *old(i) as int) is None,
        },
{
    let from_user = match p_str(b, i) {
        Some(s) => s,
        None => {
            return None;
        },
    };
    match p_msg(b, i) {
        Some(m) => Some(MsgPayload { from_user, content: m }),
        None => None,
    }
}

fn p_env(b: &[u8], i: &mut usize) -> (r: Option<MessageEnvelope>)
    requires
        *old(i) <= b@.len(),
    ensures
        *final(i) <= b@.len(),
        match r {
            Some(e) => p_env_at(b@, *old(i) as int) == Some((e@, *final(i) as int)),
            None => p_env_at(b@, *old(i) as int) is None,
        },
{
    let payload: Option<MsgPayload> = match p_u8(b, i) {
        Some(t) => {
            if t == 0 {
                None
            } else if t == 1 {
                match p_payload(b, i) {
                    Some(p) => Some(p),
                    None => {
                        return None;
                    },
                }
            } else {
                return None;
            }
        },
        None => {
            return None;
        },
    };
    match p_u8(b, i) {
        Some(t) => {
            if t == 0 {
                Some(MessageEnvelope { payload, error: None })
            } else if t == 1 {
                match p_err(b, i) {
                    Some(e) => Some(MessageEnvelope { payload, error: Some(e) }),
                    None => None,
                }
            } else {
                None
            }
        },
        None => None,
    }
}

impl MessageEnvelope {
    /// True exactly when the envelope is well formed.
    pub fn check_wf(&self) -> (b: bool)
        ensures
            b == self@.wf(),
    {
        match &self.payload {
            None => true,
            Some(p) => match &p.content {
                Message::File(f) => f.file_size == f.bytes.len(),
                Message::Image(f) => f.file_size == f.bytes.len(),
                _ => true,
            },
        }
    }

    /// Encodes the envelope and prefixes the exact byte length of the
    /// encoding, 4 bytes little endian. Fails, with
    /// `SerializationFailed` and only then, when the envelope is not
    /// well formed or a length does not fit the wire format.
    pub fn serialize(&self) -> (r: Result<Vec<u8>, MsgSystemError>)
        ensures
            match r {
                Ok(out) => spec_serializable(self@) && out@ == spec_serialize(self@),
                Err(e) => !spec_serializable(self@) && e@ is SerializationFailed,
            },
    {
        if !self.check_wf() {
            return Err(MsgSystemError::SerializationFailed);
        }
        let mut payload: Vec<u8> = Vec::new();
        if !enc_env_exec(self, &mut payload) {
            return Err(MsgSystemError::SerializationFailed);
        }
        if payload.len() > 0xffff_ffffusize {
            return Err(MsgSystemError::SerializationFailed);
        }
        let mut out = u32_to_le_bytes(payload.len() as u32);
        out.append(&mut payload);
        proof {
            assert(out@ =~= spec_serialize(self@));
        }
        Ok(out)
    }

    /// Decodes a buffer holding exactly one frame's payload, the
    /// prefix already stripped. Fails, with `DeserializationFailed`
    /// and only then, when the bytes are not the encoding of an
    /// envelope.
    pub fn deserialize(bytes: &[u8]) -> (r: Result<Self, MsgSystemError>)
        ensures
            match r {
                Ok(env) => {
                    &&& spec_deserialize(bytes@) == Some(env@)
                    &&& env@.wf()
                    &&& fits_parts(env@)
                    &&& enc_env(env@) == bytes@
                },
                Err(e) => spec_deserialize(bytes@) is None && e@ is DeserializationFailed,
            },
    {
        proof {
            lemma_deserialize_sound(bytes@);
        }
        let mut i: usize = 0;
        match p_env(bytes, &mut i) {
            Some(env) => {
                if i == bytes.len() {
                    Ok(env)
                } else {
                    Err(MsgSystemError::DeserializationFailed)
                }
            },
            None => Err(MsgSystemError::DeserializationFailed),
        }
    }
}

} // verus!
