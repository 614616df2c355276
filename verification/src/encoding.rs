//! Base32 and base64url text encodings (RFC 4648, no padding), relied on
//! from the `data-encoding` crate.
//!
//! The encoded form of a byte sequence is named by an uninterpreted spec
//! function per alphabet, and the decoder is named likewise; the wrappers
//! state the documented relation between the two: encoding followed by
//! decoding returns the initial data, and the encoded text stays within the
//! alphabet.

use vstd::prelude::*;

verus! {

/// A character of the RFC 4648 upper-case base32 alphabet `A-Z2-7`.
pub open spec fn is_base32_char(c: char) -> bool {
    (65 <= c as u32 && c as u32 <= 90) || (50 <= c as u32 && c as u32 <= 55)
}

/// Runtime test for [`is_base32_char`].
pub fn base32_char(c: char) -> (r: bool)
    ensures
        r == is_base32_char(c),
{
    let u = c as u32;
    (65 <= u && u <= 90) || (50 <= u && u <= 55)
}

/// The base32 text (RFC 4648 upper-case alphabet, no padding) of a byte
/// sequence.
pub uninterp spec fn base32_of(b: Seq<u8>) -> Seq<char>;

/// What base32 decoding returns on a text: the unique byte sequence whose
/// encoding the text is, if it is one.
pub uninterp spec fn base32_decoded(s: Seq<char>) -> Option<Seq<u8>>;

/// Relies on `data_encoding::BASE32_NOPAD.encode`: the RFC 4648 base32
/// encoding without padding, whose output uses the alphabet `A-Z2-7` and
/// which `decode` inverts exactly ("encoding followed by decoding gives the
/// initial data").
#[verifier::external_body]
pub(crate) fn base32_encode(b: &[u8]) -> (r: String)
    requires
        b@.len() <= 0x100_0000,
    ensures
        r@ == base32_of(b@),
        base32_decoded(r@) == Some(b@),
        forall|k: int| 0 <= k < r@.len() ==> is_base32_char(r@[k]),
{
    data_encoding::BASE32_NOPAD.encode(b)
}

/// Relies on `data_encoding::BASE32_NOPAD.decode`: for this canonical
/// encoding, decoding succeeds exactly on the possible outputs of the
/// encoding function ("decoding followed by encoding gives the initial
/// data") and returns the encoded bytes.
#[verifier::external_body]
pub(crate) fn base32_decode(s: &str) -> (r: Option<Vec<u8>>)
    ensures
        match r {
            Some(b) => base32_decoded(s@) == Some(b@),
            None => base32_decoded(s@) is None,
        },
{
    data_encoding::BASE32_NOPAD.decode(s.as_bytes()).ok()
}

/// A character of the RFC 4648 URL-safe base64 alphabet `A-Za-z0-9-_`.
pub open spec fn is_base64url_char(c: char) -> bool {
    ||| (65 <= c as u32 && c as u32 <= 90)
    ||| (97 <= c as u32 && c as u32 <= 122)
    ||| (48 <= c as u32 && c as u32 <= 57)
    ||| c == '-'
    ||| c == '_'
}

/// The base64url text (RFC 4648 URL-safe alphabet, no padding) of a byte
/// sequence.
pub uninterp spec fn base64url_of(b: Seq<u8>) -> Seq<char>;

/// What base64url decoding returns on a text: the unique byte sequence
/// whose encoding the text is, if it is one.
pub uninterp spec fn base64url_decoded(s: Seq<char>) -> Option<Seq<u8>>;

/// Relies on `data_encoding::BASE64URL_NOPAD.encode`: the RFC 4648 URL-safe
/// base64 encoding without padding, whose output uses the alphabet
/// `A-Za-z0-9-_` and which `decode` inverts exactly.
#[verifier::external_body]
pub(crate) fn base64url_encode(b: &[u8]) -> (r: String)
    requires
        b@.len() <= 0x100_0000,
    ensures
        r@ == base64url_of(b@),
        base64url_decoded(r@) == Some(b@),
        forall|k: int| 0 <= k < r@.len() ==> is_base64url_char(r@[k]),
{
    data_encoding::BASE64URL_NOPAD.encode(b)
}

/// Relies on `data_encoding::BASE64URL_NOPAD.decode`: for this canonical
/// encoding, decoding succeeds exactly on the possible outputs of the
/// encoding function and returns the encoded bytes.
#[verifier::external_body]
pub(crate) fn base64url_decode(s: &str) -> (r: Option<Vec<u8>>)
    ensures
        match r {
            Some(b) => base64url_decoded(s@) == Some(b@),
            None => base64url_decoded(s@) is None,
        },
{
    data_encoding::BASE64URL_NOPAD.decode(s.as_bytes()).ok()
}

} // verus!
