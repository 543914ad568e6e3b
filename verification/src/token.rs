//! Bearer tokens: node keys and the admin login.
//!
//! All are the same shape — 256 bits of randomness, URL-safe base64 — and all
//! are stored as a SHA-256 hash. Someone who gets a copy of `portal.db` (a
//! backup, a stolen disk image) then holds no usable credentials, which
//! matters because a node key can publish DNS and an admin token can do
//! anything at all.

use crate::encoding;
use crate::number;
use base64::Engine as _;
use rand::RngCore as _;
use sha2::Digest as _;
use vstd::prelude::*;
use vstd::utf8;

verus! {

// ---- outside calls ------------------------------------------------------

/// The SHA-256 digest of some bytes, as `sha2` computes it.
pub uninterp spec fn sha256_digest(bytes: Seq<u8>) -> Seq<u8>;

/// `sha2::Sha256::digest`: 32 bytes that depend on the input alone.
#[verifier::external_body]
pub(crate) fn sha256(bytes: &[u8]) -> (r: Vec<u8>)
    ensures
        r@ == sha256_digest(bytes@),
        r@.len() == 32,
{
    sha2::Sha256::digest(bytes).to_vec()
}

/// `Engine::encode` of `base64`'s `URL_SAFE_NO_PAD` engine: URL-safe base64
/// without padding.
#[verifier::external_body]
fn encode_url_safe(bytes: &[u8]) -> (r: String)
    requires
        bytes@.len() <= 0x1000_0000,
    ensures
        r@ == encoding::base64_url(bytes@),
{
    base64::engine::general_purpose::URL_SAFE_NO_PAD.encode(bytes)
}

/// `RngCore::fill_bytes` of `rand`'s `OsRng`, on 32 bytes. Where the operating
/// system has no randomness to give, it panics.
#[verifier::external_body]
fn random_bytes() -> (r: Vec<u8>)
    ensures
        r@.len() == 32,
{
    let mut bytes = [0u8; 32];
    rand::rngs::OsRng.fill_bytes(&mut bytes);
    bytes.to_vec()
}

// ---- tokens -------------------------------------------------------------

/// What the database holds for a token: the hexadecimal SHA-256 digest of its
/// UTF-8 bytes.
pub open spec fn token_hash(token: Seq<char>) -> Seq<char> {
    number::hex(sha256_digest(utf8::encode_utf8(token)))
}

/// Whether a presented token matches a stored hash.
pub open spec fn accepts(presented: Seq<char>, stored_hash: Seq<char>) -> bool {
    token_hash(presented) == stored_hash
}

/// The token that 32 bytes of randomness spell.
pub fn token_of(bytes: &[u8]) -> (r: String)
    requires
        bytes@.len() == 32,
    ensures
        r@ == encoding::base64_url(bytes@),
        r@.len() == 43,
{
    encode_url_safe(bytes)
}

/// Whether a text is a token: 32 bytes in URL-safe base64.
pub open spec fn is_token(s: Seq<char>) -> bool {
    exists|bytes: Seq<u8>| bytes.len() == 32 && s == #[trigger] encoding::base64_url(bytes)
}

/// A fresh random token, shown to the operator exactly once.
pub fn generate() -> (r: String)
    ensures
        is_token(r@),
{
    let bytes = random_bytes();
    token_of(bytes.as_slice())
}

/// Hex SHA-256 of a token, which is what the database holds.
pub fn hash(token: &str) -> (r: String)
    ensures
        r@ == token_hash(token@),
        r@.len() == 64,
{
    let digest = sha256(token.as_bytes());
    number::hex_of(digest.as_slice())
}

/// Compare a presented token against a stored hash in constant time with
/// respect to the hash contents, so a wrong guess leaks nothing through how
/// long the check took.
pub fn verify(presented: &str, stored_hash: &str) -> (r: bool)
    ensures
        r == accepts(presented@, stored_hash@),
{
    let computed = hash(presented);
    let a = computed.as_str().as_bytes();
    let b = stored_hash.as_bytes();
    if a.len() != b.len() {
        return false;
    }
    let mut acc: u8 = 0;
    let mut i: usize = 0;
    while i < a.len()
        invariant
            i <= a@.len(),
            a@.len() == b@.len(),
            acc == 0 <==> (forall|k: int| 0 <= k < i ==> a@[k] == b@[k]),
        decreases a@.len() - i,
    {
        let x: u8 = a[i];
        let y: u8 = b[i];
        let next: u8 = acc | (x ^ y);
        proof {
            assert(acc | (x ^ y) == 0 <==> acc == 0 && x == y) by (bit_vector);
        }
        acc = next;
        i += 1;
    }
    proof {
        if acc == 0 {
            assert(a@ =~= b@);
            utf8::encode_utf8_decode_utf8(computed@);
            utf8::encode_utf8_decode_utf8(stored_hash@);
        }
    }
    acc == 0
}

/// A character that needs no escaping in a URL.
pub open spec fn url_safe(c: char) -> bool {
    encoding::alphanumeric(c) || c == '-' || c == '_'
}

/// A token is 43 characters, each of which may stand in a URL.
pub proof fn law_token_is_url_safe(token: Seq<char>)
    requires
        is_token(token),
    ensures
        token.len() == 43,
        forall|i: int| 0 <= i < token.len() ==> url_safe(#[trigger] token[i]),
{
    let bytes = choose|bytes: Seq<u8>|
        bytes.len() == 32 && token == #[trigger] encoding::base64_url(bytes);
    assert forall|i: int| 0 <= i < token.len() implies url_safe(#[trigger] token[i]) by {
        encoding::lemma_six_bits(bytes, i);
        encoding::lemma_symbol(encoding::six_bits(bytes, i), '-', '_');
    }
}

/// A token is accepted against the hash that is stored for it.
pub proof fn law_verify_accepts_the_real_token(token: Seq<char>)
    ensures
        accepts(token, token_hash(token)),
{
}

} // verus!
