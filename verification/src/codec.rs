//! Digests, compression and texts for bytes.
use crate::text::view_option;
use base64::Engine;
use sha2::Digest;
use std::io::Write;
use vstd::prelude::*;
use vstd::utf8::{decode_utf8, valid_utf8};

verus! {

/// The SHA-256 digest of bytes.
pub uninterp spec fn sha256(bytes: Seq<u8>) -> Seq<u8>;

/// The zstd frame that holds bytes, compressed at a level; none where they cannot
/// be compressed at it.
pub uninterp spec fn zstd_frame(bytes: Seq<u8>, level: i32) -> Option<Seq<u8>>;

/// Bytes in base64 with the standard alphabet and padding.
pub uninterp spec fn base64_standard(bytes: Seq<u8>) -> Seq<char>;

/// Bytes in base64 with the alphabet for addresses and no padding.
pub uninterp spec fn base64_url(bytes: Seq<u8>) -> Seq<char>;

/// The bytes that a text holds in base64 with the alphabet for addresses and no
/// padding.
pub uninterp spec fn base64_url_decoded(text: Seq<char>) -> Option<Seq<u8>>;

/// The text of bytes, with replacement characters for what is no UTF-8.
pub uninterp spec fn lossy(bytes: Seq<u8>) -> Seq<char>;

/// `sha2::Sha256::digest`. Believed: the result depends on the bytes alone, and
/// has 32 bytes.
#[verifier::external_body]
fn digest_bytes(bytes: &[u8]) -> (digest: Vec<u8>)
    ensures
        digest@ == sha256(bytes@),
        digest@.len() == 32,
{
    sha2::Sha256::digest(bytes).to_vec()
}

/// `zstd::Encoder`, as its documentation has it used: made with a level, given
/// the bytes, and finished. Believed: whether it fails, and the frame otherwise,
/// depend on the bytes and the level alone. That memory runs out is left out of
/// account, here as with every allocation.
#[verifier::external_body]
fn compress(bytes: &[u8], level: i32) -> (frame: Option<Vec<u8>>)
    ensures
        match frame {
            Some(frame) => zstd_frame(bytes@, level) == Some(frame@),
            None => zstd_frame(bytes@, level) is None,
        },
{
    let mut encoder = zstd::Encoder::new(Vec::new(), level).ok()?;
    encoder.write_all(bytes).ok()?;
    encoder.finish().ok()
}

/// `base64::engine::general_purpose::STANDARD.encode`. Believed: the result
/// depends on the bytes alone.
#[verifier::external_body]
fn encode_standard(bytes: &[u8]) -> (text: String)
    ensures
        text@ == base64_standard(bytes@),
{
    base64::engine::general_purpose::STANDARD.encode(bytes)
}

/// `base64::engine::general_purpose::URL_SAFE_NO_PAD.encode`. Believed: the
/// result depends on the bytes alone.
#[verifier::external_body]
fn encode_url(bytes: &[u8]) -> (text: String)
    ensures
        text@ == base64_url(bytes@),
{
    base64::engine::general_purpose::URL_SAFE_NO_PAD.encode(bytes)
}

/// `base64::engine::general_purpose::URL_SAFE_NO_PAD.decode`. Believed: whether
/// it fails, and the bytes otherwise, depend on the text alone.
#[verifier::external_body]
fn decode_url(text: &str) -> (bytes: Option<Vec<u8>>)
    ensures
        match bytes {
            Some(bytes) => base64_url_decoded(text@) == Some(bytes@),
            None => base64_url_decoded(text@) is None,
        },
{
    base64::engine::general_purpose::URL_SAFE_NO_PAD.decode(text).ok()
}

/// `String::from_utf8_lossy`. Believed: the result depends on the bytes alone,
/// and is the text that they encode where they are UTF-8.
#[verifier::external_body]
fn read_lossy(bytes: &[u8]) -> (text: String)
    ensures
        text@ == lossy(bytes@),
        valid_utf8(bytes@) ==> text@ == decode_utf8(bytes@),
{
    String::from_utf8_lossy(bytes).into_owned()
}

/// The hexadecimal digit of a number below sixteen.
pub open spec fn hex_digit(value: int) -> char {
    if value < 10 {
        (value + 48) as char
    } else {
        (value + 87) as char
    }
}

/// Bytes in hexadecimal digits, two for each.
pub open spec fn hex(bytes: Seq<u8>) -> Seq<char>
    decreases bytes.len(),
{
    if bytes.len() == 0 {
        Seq::empty()
    } else {
        hex(bytes.drop_last()).push(hex_digit(bytes.last() as int / 16)).push(
            hex_digit(bytes.last() as int % 16),
        )
    }
}

fn hex_character(value: u8) -> (digit: char)
    requires
        value < 16,
    ensures
        digit == hex_digit(value as int),
{
    if value < 10 {
        (value + 48) as char
    } else {
        (value + 87) as char
    }
}

/// Bytes in hexadecimal digits.
pub fn hex_text(bytes: &Vec<u8>) -> (text: String)
    ensures
        text@ == hex(bytes@),
{
    let mut text = String::new();
    let mut i: usize = 0;
    assert(bytes@.take(0) =~= Seq::empty());
    while i < bytes.len()
        invariant
            i <= bytes.len(),
            text@ == hex(bytes@.take(i as int)),
        decreases bytes.len() - i,
    {
        let byte = bytes[i];
        text.push(hex_character(byte / 16));
        text.push(hex_character(byte % 16));
        assert(bytes@.take(i + 1).drop_last() =~= bytes@.take(i as int));
        i += 1;
    }
    assert(bytes@.take(i as int) =~= bytes@);
    text
}

/// The digest of bytes in hexadecimal digits.
pub fn digest_text(bytes: &[u8]) -> (text: String)
    ensures
        text@ == hex(sha256(bytes@)),
        text@.len() == 64,
{
    let digest = digest_bytes(bytes);
    proof {
        lemma_hex_length(digest@);
    }
    hex_text(&digest)
}

/// Every byte takes two digits.
pub proof fn lemma_hex_length(bytes: Seq<u8>)
    ensures
        hex(bytes).len() == 2 * bytes.len(),
    decreases bytes.len(),
{
    if bytes.len() > 0 {
        lemma_hex_length(bytes.drop_last());
    }
}

/// The digest of bytes in base64 for addresses.
pub fn digest_url(bytes: &[u8]) -> (text: String)
    ensures
        text@ == base64_url(sha256(bytes@)),
{
    let digest = digest_bytes(bytes);
    encode_url(digest.as_slice())
}

/// Bytes in base64 for addresses.
pub fn url_text(bytes: &[u8]) -> (text: String)
    ensures
        text@ == base64_url(bytes@),
{
    encode_url(bytes)
}

/// The bytes that a text holds in base64 for addresses.
pub fn url_bytes(text: &str) -> (bytes: Option<Vec<u8>>)
    ensures
        match bytes {
            Some(bytes) => base64_url_decoded(text@) == Some(bytes@),
            None => base64_url_decoded(text@) is None,
        },
{
    decode_url(text)
}

/// How much objects are compressed for a runner.
pub const OBJECT_LEVEL: i32 = 3;

/// A frame as it is sent to a runner: in base64.
pub open spec fn sent_frame(frame: Option<Seq<u8>>) -> Option<Seq<char>> {
    match frame {
        Some(frame) => Some(base64_standard(frame)),
        None => None,
    }
}

/// What is sent to a runner for what the compression of an object gave.
pub fn frame_blob(frame: Option<Vec<u8>>) -> (blob: Option<String>)
    ensures
        view_option(blob) == sent_frame(
            match frame {
                Some(frame) => Some(frame@),
                None => None,
            },
        ),
{
    match frame {
        Some(frame) => Some(encode_standard(frame.as_slice())),
        None => None,
    }
}

/// An object as it is sent to a runner: compressed, in base64.
pub fn object_blob(object: &[u8]) -> (blob: Option<String>)
    ensures
        view_option(blob) == sent_frame(zstd_frame(object@, OBJECT_LEVEL)),
{
    frame_blob(compress(object, OBJECT_LEVEL))
}

/// The text of bytes, with replacement characters for what is no UTF-8.
pub fn lossy_text(bytes: &[u8]) -> (text: String)
    ensures
        text@ == lossy(bytes@),
        valid_utf8(bytes@) ==> text@ == decode_utf8(bytes@),
{
    read_lossy(bytes)
}

} // verus!
