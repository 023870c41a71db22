//! Tor onion services: the calls into `torut` that the address logic makes.
//! Each result is named by a spec function of its arguments alone.

use vstd::prelude::*;

verus! {

/// Whether `key` is the byte form of a valid Ed25519 public key, as Tor v3
/// onion services use it.
pub uninterp spec fn tor_v3_key_valid(key: Seq<u8>) -> bool;

/// Relies on `torut::onion::TorPublicKeyV3::from_bytes`, which accepts the 32
/// bytes exactly when they decompress to an Ed25519 point.
#[verifier::external_body]
pub(crate) fn check_tor_v3_key(key: &[u8; 32]) -> (r: bool)
    ensures
        r == tor_v3_key_valid(key@),
{
    torut::onion::TorPublicKeyV3::from_bytes(key).is_ok()
}

/// The service key that the text of a Tor v3 onion address (its 56 base32
/// characters, without `.onion`) carries, if the text is one.
pub uninterp spec fn onion_v3_key_of_text(s: Seq<char>) -> Option<Seq<u8>>;

/// Relies on `torut::onion::OnionAddressV3::from_str`, which takes exactly
/// 56 bytes of text, decodes them as base32 (ASCII only, in either case),
/// checks the version byte and checksum, and holds the key.
#[verifier::external_body]
pub(crate) fn parse_onion_v3(s: &str) -> (r: Option<[u8; 32]>)
    ensures
        onion_v3_key_of_text(s@) == (match r {
            Some(k) => Some(k@),
            None => None::<Seq<u8>>,
        }),
        r is Some ==> s@.len() == 56,
{
    match s.parse::<torut::onion::OnionAddressV3>() {
        Ok(a) => Some(a.get_public_key().to_bytes()),
        Err(_) => None,
    }
}

/// The 10 raw bytes that the text of a Tor v2 onion address (its 16 base32
/// characters, without `.onion`) carries, if the text is one.
pub uninterp spec fn onion_v2_bytes_of_text(s: Seq<char>) -> Option<Seq<u8>>;

/// Relies on `torut::onion::OnionAddressV2::from_str`, which takes exactly
/// 16 bytes of text and decodes them as base32 (ASCII only, in either case)
/// into the raw onion identifier.
#[verifier::external_body]
#[allow(deprecated)]
pub(crate) fn parse_onion_v2(s: &str) -> (r: Option<[u8; 10]>)
    ensures
        onion_v2_bytes_of_text(s@) == (match r {
            Some(o) => Some(o@),
            None => None::<Seq<u8>>,
        }),
        r is Some ==> s@.len() == 16,
{
    match s.parse::<torut::onion::OnionAddressV2>() {
        Ok(a) => Some(a.get_raw_bytes()),
        Err(_) => None,
    }
}

/// The canonical text (`<base32>.onion`) of the Tor v3 onion address of a
/// service key.
pub uninterp spec fn onion_v3_text_of(key: Seq<u8>) -> Seq<char>;

/// Relies on `torut::onion::TorPublicKeyV3::get_onion_address` and the
/// `Display` of `OnionAddressV3`: the lower-case base32 of key, checksum and
/// version, then `.onion`, which `OnionAddressV3::from_str` reads back once
/// the suffix is dropped. The key must be valid, since
/// `TorPublicKeyV3::from_bytes` is the only way to build one.
#[verifier::external_body]
pub(crate) fn onion_v3_text(key: &[u8; 32]) -> (r: String)
    requires
        tor_v3_key_valid(key@),
    ensures
        r@ == onion_v3_text_of(key@),
        onion_v3_key_of_text(onion_host(r@)) == Some(key@),
        onion_host(r@).len() == 56,
{
    match torut::onion::TorPublicKeyV3::from_bytes(key) {
        Ok(k) => k.get_onion_address().to_string(),
        Err(_) => String::new(),
    }
}

/// A text without its `.onion` suffix, if it has one.
pub open spec fn onion_host(s: Seq<char>) -> Seq<char> {
    if s.len() >= 6 && s.subrange(s.len() - 6, s.len() as int) == ".onion"@ {
        s.subrange(0, s.len() - 6)
    } else {
        s
    }
}

/// The unpadded RFC 4648 base32 text of a byte string, in upper case.
pub uninterp spec fn base32_of(b: Seq<u8>) -> Seq<char>;

/// Relies on `base32::encode` with the unpadded RFC 4648 alphabet, the one
/// that Tor onion addresses use: 10 bytes give 16 ASCII characters, which
/// `torut::onion::OnionAddressV2::from_str` decodes back in either case.
#[verifier::external_body]
pub(crate) fn base32_text(b: &[u8; 10]) -> (r: String)
    ensures
        r@ == base32_of(b@),
        r@.len() == 16,
        onion_v2_bytes_of_text(ascii_lowercase_of(r@)) == Some(b@),
{
    base32::encode(base32::Alphabet::RFC4648 { padding: false }, b)
}

/// A character in ASCII lower case: `A` to `Z` become `a` to `z`.
pub open spec fn ascii_lower(c: char) -> char {
    if 'A' <= c <= 'Z' {
        ((c as u32) + 32) as char
    } else {
        c
    }
}

/// A text in ASCII lower case.
pub open spec fn ascii_lowercase_of(s: Seq<char>) -> Seq<char> {
    Seq::new(s.len(), |i: int| ascii_lower(s[i]))
}

/// Relies on `str::to_ascii_lowercase`, documented to map `A` to `Z` to `a`
/// to `z` and to leave every other character as it is.
#[verifier::external_body]
pub(crate) fn ascii_lowercase(s: &str) -> (r: String)
    ensures
        r@ == ascii_lowercase_of(s@),
{
    s.to_ascii_lowercase()
}

} // verus!
