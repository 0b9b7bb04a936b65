//! The calls into `encoding_rs` and `encoding_rs_io` that transcode text
//! between UTF-8 and the legacy Chinese encodings (GBK, GB18030, Big5, ...),
//! and std's lossy UTF-8 decoding.
//!
//! An encoding is named by a WHATWG label such as `gbk` or `big5`; what a
//! label names and how each encoding maps bytes to characters is the
//! outside crates' business, so the results are named here rather than
//! spelled out.

use encoding_rs::Encoding;
use encoding_rs_io::DecodeReaderBytesBuilder;
use std::io::Read;
use vstd::prelude::*;
use vstd::utf8::{decode_utf8, valid_utf8};

verus! {

/// Whether `Encoding::for_label` recognizes `label` (after ASCII
/// lower-casing and trimming ASCII whitespace, a label of the WHATWG
/// Encoding Standard).
pub uninterp spec fn names_encoding(label: Seq<u8>) -> bool;

/// The characters that decoding `bytes` in the encoding named by `label`
/// gives, malformed sequences replaced by U+FFFD and a leading byte order
/// mark of that encoding removed.
pub uninterp spec fn decoded_with_label(label: Seq<u8>, bytes: Seq<u8>) -> Seq<char>;

/// The bytes that encoding `text` in the output encoding of the encoding
/// named by `label` gives, unmappable characters written as HTML numeric
/// character references.
pub uninterp spec fn encoded_with_label(label: Seq<u8>, text: Seq<char>) -> Seq<u8>;

/// The characters of `bytes` read as UTF-8, each malformed sequence replaced
/// by U+FFFD.
pub uninterp spec fn lossy_utf8(bytes: Seq<u8>) -> Seq<char>;

/// `encoding_rs::Encoding::for_label(label).is_some()`.
///
/// Trusted: the result is the named predicate [`names_encoding`] of the
/// label; nothing more is stated of which labels it accepts.
#[verifier::external_body]
pub(crate) fn encoding_label_known(label: &[u8]) -> (r: bool)
    ensures
        r == names_encoding(label@),
{
    Encoding::for_label(label).is_some()
}

/// Decodes `bytes` with `encoding_rs_io::DecodeReaderBytesBuilder` set to
/// the encoding that `label` names.
///
/// Trusted: the result is `Ok` and holds [`decoded_with_label`] of the label
/// and the bytes. The reader wraps a byte slice, which never fails to read,
/// and with an explicit encoding it transcodes to UTF-8 with replacement, so
/// `read_to_string` always succeeds; the `Err` arm is never taken.
#[verifier::external_body]
pub(crate) fn decode_with_label(label: &[u8], bytes: &[u8]) -> (r: Result<String, String>)
    requires
        names_encoding(label@),
    ensures
        r is Ok,
        r matches Ok(s) ==> s@ == decoded_with_label(label@, bytes@),
{
    let mut reader = DecodeReaderBytesBuilder::new().encoding(Encoding::for_label(label)).build(
        bytes,
    );
    let mut decoded = String::new();
    match reader.read_to_string(&mut decoded) {
        Ok(_) => Ok(decoded),
        Err(e) => Err(e.to_string()),
    }
}

/// Encodes `text` with `encoding_rs::Encoding::encode` of the encoding that
/// `label` names.
///
/// Trusted: the result holds [`encoded_with_label`] of the label and the text.
#[verifier::external_body]
pub(crate) fn encode_with_label(label: &[u8], text: &str) -> (r: Vec<u8>)
    requires
        names_encoding(label@),
    ensures
        r@ == encoded_with_label(label@, text@),
{
    let encoding = Encoding::for_label(label).unwrap();
    encoding.encode(text).0.into_owned()
}

/// `String::from_utf8_lossy(bytes).into_owned()`.
///
/// Trusted: the result is [`lossy_utf8`] of the bytes, and for valid UTF-8
/// it is exactly the decoded text, as std documents.
#[verifier::external_body]
pub(crate) fn utf8_lossy(bytes: &[u8]) -> (s: String)
    ensures
        s@ == lossy_utf8(bytes@),
        valid_utf8(bytes@) ==> s@ == decode_utf8(bytes@),
{
    String::from_utf8_lossy(bytes).into_owned()
}

} // verus!
