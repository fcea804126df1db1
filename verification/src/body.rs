//! Request bodies: what is sent, how long it is, and chunked framing.

use crate::bytes::{CR, LF};
use crate::error::{Error, ErrorKind};
use vstd::prelude::*;
use vstd::slice::{slice_subrange, slice_to_vec};
use vstd::string::StringSliceAdditionalSpecFns;

verus! {

/// The most that one chunk may take on the wire: the size of a TLS fragment.
pub const CHUNK_MAX_SIZE: usize = 0x4000;

/// Four hex digits and `"\r\n"`.
pub const CHUNK_HEADER_MAX_SIZE: usize = 6;

/// `"\r\n"`.
pub const CHUNK_FOOTER_SIZE: usize = 2;

/// The most payload that one chunk carries.
pub const CHUNK_MAX_PAYLOAD_SIZE: usize = CHUNK_MAX_SIZE - CHUNK_HEADER_MAX_SIZE
    - CHUNK_FOOTER_SIZE;

/// The longest text, in bytes, that is handed to a character encoder. The
/// encoder works out buffer sizes of several times the length of the text;
/// up to this length they stay within `usize`. No text that fits into the
/// memory of a 64-bit machine is longer.
pub const MAX_TEXT_SIZE: usize = usize::MAX / 64;

#[verifier::external_type_specification]
#[verifier::external_body]
pub struct ExJsonValue(serde_json::Value);

/// The compact JSON text of a value, or `None` where it has none.
pub uninterp spec fn json_text(value: serde_json::Value) -> Option<Seq<u8>>;

/// `text` in the encoding that the label `label` names, or `None` where the
/// label names no encoding.
pub uninterp spec fn charset_encoding(label: Seq<char>, text: Seq<char>) -> Option<Seq<u8>>;

/// `serde_json::to_vec` on a `serde_json::Value`: the value as compact JSON
/// text. Nothing is claimed of the text but that it depends on the value alone.
#[verifier::external_body]
fn json_to_vec(value: &serde_json::Value) -> (r: Option<Vec<u8>>)
    ensures
        match r {
            Some(b) => json_text(*value) == Some(b@),
            None => json_text(*value) is None,
        },
{
    serde_json::to_vec(value).ok()
}

/// `encoding_rs::Encoding::for_label` on the label, then
/// `encoding_rs::Encoding::encode` on the text. `None` stands for a label
/// that names no encoding. Nothing is claimed of the bytes but that they
/// depend on label and text alone. `encode` panics where a buffer size that
/// it works out does not fit `usize`: the sizes are at most three times the
/// length of the text and a few bytes more, rounded up to a power of two and
/// added up once more, so the text is held to a 64th of `usize::MAX`.
#[verifier::external_body]
fn encode_with_label(label: &str, text: &str) -> (r: Option<Vec<u8>>)
    requires
        text.spec_bytes().len() <= MAX_TEXT_SIZE,
    ensures
        match r {
            Some(b) => charset_encoding(label@, text@) == Some(b@),
            None => charset_encoding(label@, text@) is None,
        },
{
    let encoding = encoding_rs::Encoding::for_label(label.as_bytes());
    encoding.map(|e| e.encode(text).0.into_owned())
}

/// The different kinds of bodies to send.
pub enum Payload<'a> {
    Empty,
    /// A text and the label of the character set to send it in.
    Text(&'a str, String),
    JSON(serde_json::Value),
    /// A stream of unknown length, which the caller holds and sends in chunks.
    Reader,
    Bytes(&'a [u8]),
}

/// The size of the body.
#[derive(Debug, Clone, Copy, PartialEq, Eq, Structural)]
pub enum BodySize {
    Empty,
    Unknown,
    Known(u64),
}

/// A payload made ready: its size, and its bytes as far as they are at hand.
#[derive(Debug)]
pub struct SizedReader {
    pub size: BodySize,
    pub body: Vec<u8>,
}

impl SizedReader {
    pub fn new(size: BodySize, body: Vec<u8>) -> (r: Self)
        ensures
            r.size == size,
            r.body == body,
    {
        SizedReader { size, body }
    }

    /// A body of known size, which is the number of its bytes.
    pub fn known(body: Vec<u8>) -> (r: Self)
        ensures
            r.size == BodySize::Known(body@.len() as u64),
            r.body == body,
    {
        let len = body.len();
        SizedReader { size: BodySize::Known(len as u64), body }
    }
}

impl<'a> Payload<'a> {
    /// The bytes that this payload puts on the wire, as far as they are at
    /// hand: none for `Empty` and `Reader`; a text in its character set, or
    /// in UTF-8 where the label names none; a JSON value as compact text.
    /// `None` stands for a payload that cannot be sent: a text longer than
    /// `MAX_TEXT_SIZE`, or a JSON value without a text.
    pub open spec fn bytes_spec(self) -> Option<Seq<u8>> {
        match self {
            Payload::Empty => Some(Seq::<u8>::empty()),
            Payload::Text(text, charset) => if text.spec_bytes().len() > MAX_TEXT_SIZE {
                None
            } else {
                match charset_encoding(charset@, text@) {
                    Some(b) => Some(b),
                    None => Some(text.spec_bytes()),
                }
            },
            Payload::JSON(v) => json_text(v),
            Payload::Reader => Some(Seq::<u8>::empty()),
            Payload::Bytes(b) => Some(b@),
        }
    }

    /// The size that is announced for `body`, the bytes of this payload.
    pub open spec fn size_spec(self, body: Seq<u8>) -> BodySize {
        match self {
            Payload::Empty => BodySize::Empty,
            Payload::Reader => BodySize::Unknown,
            _ => BodySize::Known(body.len() as u64),
        }
    }

    /// Makes the payload ready to be sent.
    pub fn into_read(self) -> (r: Result<SizedReader, Error>)
        ensures
            match self.bytes_spec() {
                Some(b) => r matches Ok(s) && s.body@ == b && s.size == self.size_spec(b),
                None => r matches Err(e) && e == Error::plain(
                    ErrorKind::Io,
                    Some(
                        if self is JSON {
                            "Bad JSON in payload"
                        } else {
                            "Text payload too large"
                        },
                    ),
                ),
            },
    {
        match self {
            Payload::Empty => Ok(SizedReader::new(BodySize::Empty, Vec::new())),
            Payload::Text(text, charset) => {
                let raw = text.as_bytes();
                if raw.len() > MAX_TEXT_SIZE {
                    return Err(ErrorKind::Io.msg("Text payload too large"));
                }
                let bytes = match encode_with_label(charset.as_str(), text) {
                    Some(b) => b,
                    None => slice_to_vec(raw),
                };
                Ok(SizedReader::known(bytes))
            },
            Payload::JSON(v) => match json_to_vec(&v) {
                Some(bytes) => Ok(SizedReader::known(bytes)),
                None => Err(ErrorKind::Io.msg("Bad JSON in payload")),
            },
            Payload::Reader => Ok(SizedReader::new(BodySize::Unknown, Vec::new())),
            Payload::Bytes(bytes) => Ok(SizedReader::known(slice_to_vec(bytes))),
        }
    }
}

/// The lower-case hexadecimal digit for a number below 16.
pub open spec fn hex_digit(d: nat) -> u8 {
    if d < 10 {
        (48 + d) as u8
    } else {
        (87 + d) as u8
    }
}

/// `n` in lower-case hexadecimal digits, without leading zeros.
pub open spec fn hex(n: nat) -> Seq<u8>
    decreases n,
{
    if n < 16 {
        seq![hex_digit(n)]
    } else {
        hex(n / 16).push(hex_digit(n % 16))
    }
}

/// One chunk: the payload's length in hexadecimal, a line break, the payload,
/// a line break.
pub open spec fn chunk(payload: Seq<u8>) -> Seq<u8> {
    hex(payload.len()) + seq![CR, LF] + payload + seq![CR, LF]
}

/// `body` in chunked framing: chunks of `CHUNK_MAX_PAYLOAD_SIZE` bytes as long
/// as that many are left, a shorter chunk for a remainder, and the empty
/// chunk that ends the stream.
pub open spec fn chunked(body: Seq<u8>) -> Seq<u8>
    decreases body.len(),
{
    if body.len() == 0 {
        chunk(body)
    } else if body.len() <= CHUNK_MAX_PAYLOAD_SIZE {
        chunk(body) + chunk(Seq::<u8>::empty())
    } else {
        chunk(body.take(CHUNK_MAX_PAYLOAD_SIZE as int)) + chunked(
            body.skip(CHUNK_MAX_PAYLOAD_SIZE as int),
        )
    }
}

fn push_hex(dest: &mut Vec<u8>, n: usize)
    ensures
        final(dest)@ == old(dest)@ + hex(n as nat),
    decreases n,
{
    if n >= 16 {
        push_hex(dest, n / 16);
    }
    let d: u8 = (n % 16) as u8;
    let digit: u8 = if d < 10 {
        48 + d
    } else {
        87 + d
    };
    dest.push(digit);
    proof {
        assert(digit == hex_digit((n % 16) as nat));
        assert(dest@ =~= old(dest)@ + hex(n as nat));
    }
}

fn push_chunk(dest: &mut Vec<u8>, payload: &[u8])
    ensures
        final(dest)@ == old(dest)@ + chunk(payload@),
{
    push_hex(dest, payload.len());
    dest.push(CR);
    dest.push(LF);
    dest.extend_from_slice(payload);
    dest.push(CR);
    dest.push(LF);
    proof {
        assert(dest@ =~= old(dest)@ + chunk(payload@));
    }
}

/// Appends `source` to `dest` in chunked framing and returns how many bytes
/// of payload were written.
pub fn copy_chunked(source: &[u8], dest: &mut Vec<u8>) -> (written: u64)
    ensures
        final(dest)@ == old(dest)@ + chunked(source@),
        written == source@.len(),
{
    let mut at: usize = 0;
    assert(source@.skip(0) =~= source@);
    while source.len() - at > CHUNK_MAX_PAYLOAD_SIZE
        invariant
            at <= source@.len(),
            source@.len() == source.len(),
            dest@ + chunked(source@.skip(at as int)) == old(dest)@ + chunked(source@),
        decreases source@.len() - at,
    {
        let ghost rest = source@.skip(at as int);
        let ghost before = dest@;
        push_chunk(dest, slice_subrange(source, at, at + CHUNK_MAX_PAYLOAD_SIZE));
        proof {
            assert(source@.subrange(at as int, at + CHUNK_MAX_PAYLOAD_SIZE) =~= rest.take(
                CHUNK_MAX_PAYLOAD_SIZE as int,
            ));
            assert(source@.skip(at + CHUNK_MAX_PAYLOAD_SIZE) =~= rest.skip(
                CHUNK_MAX_PAYLOAD_SIZE as int,
            ));
            assert(dest@ + chunked(rest.skip(CHUNK_MAX_PAYLOAD_SIZE as int)) =~= before + chunked(
                rest,
            ));
        }
        at += CHUNK_MAX_PAYLOAD_SIZE;
    }
    let ghost rest = source@.skip(at as int);
    let ghost before = dest@;
    assert(source@.subrange(at as int, source@.len() as int) =~= rest);
    if at < source.len() {
        push_chunk(dest, slice_subrange(source, at, source.len()));
    }
    let ghost middle = dest@;
    push_chunk(dest, slice_subrange(source, 0, 0));
    proof {
        assert(source@.subrange(0, 0) =~= Seq::<u8>::empty());
        if rest.len() == 0 {
            assert(rest =~= Seq::<u8>::empty());
        }
        assert(dest@ =~= before + chunked(rest));
    }
    source.len() as u64
}

} // verus!
