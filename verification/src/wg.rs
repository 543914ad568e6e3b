//! WireGuard key handling.
//!
//! Keys are Curve25519 and are exchanged as standard base64, matching what
//! `wg` prints, so anything here can be pasted into a hand-written config for
//! debugging.

use crate::encoding;
use crate::number;
use base64::Engine as _;
use vstd::prelude::*;

verus! {

/// How many bytes a key has.
pub const KEY_LEN: usize = 32;

/// Why a text is not base64.
#[derive(Debug, Clone, Copy, PartialEq, Eq, Structural)]
pub enum Base64Error {
    /// A byte outside the alphabet, and where it stands.
    InvalidByte(usize, u8),
    /// A number of symbols that no input encodes to.
    InvalidLength(usize),
    /// A last symbol with bits that would be discarded, and where it stands.
    InvalidLastSymbol(usize, u8),
    /// Padding that is absent or misplaced.
    InvalidPadding,
}

#[derive(Debug, Clone, Copy, PartialEq, Eq, Structural)]
pub enum KeyError {
    Encoding(Base64Error),
    Length(usize),
}

/// What is said of a text that is not base64.
pub open spec fn base64_error_text(e: Base64Error) -> Seq<char> {
    match e {
        Base64Error::InvalidByte(at, byte) => "Invalid symbol "@ + number::decimal(byte as nat)
            + ", offset "@ + number::decimal(at as nat) + "."@,
        Base64Error::InvalidLength(len) => "Invalid input length: "@ + number::decimal(len as nat),
        Base64Error::InvalidLastSymbol(at, byte) => "Invalid last symbol "@ + number::decimal(
            byte as nat,
        ) + ", offset "@ + number::decimal(at as nat) + "."@,
        Base64Error::InvalidPadding => "Invalid padding"@,
    }
}

/// What is said of a text that is not a key.
pub open spec fn key_error_text(e: KeyError) -> Seq<char> {
    match e {
        KeyError::Encoding(cause) => "key is not valid base64: "@ + base64_error_text(cause),
        KeyError::Length(len) => "key must decode to 32 bytes, got "@ + number::decimal(
            len as nat,
        ),
    }
}

impl Base64Error {
    /// What is said of the text.
    pub fn to_string(&self) -> (r: String)
        ensures
            r@ == base64_error_text(*self),
    {
        match *self {
            Base64Error::InvalidByte(at, byte) => {
                let mut out = "Invalid symbol ".to_owned();
                number::push_decimal(&mut out, byte as u64);
                out.append(", offset ");
                number::push_decimal(&mut out, at as u64);
                out.append(".");
                out
            },
            Base64Error::InvalidLength(len) => {
                let mut out = "Invalid input length: ".to_owned();
                number::push_decimal(&mut out, len as u64);
                out
            },
            Base64Error::InvalidLastSymbol(at, byte) => {
                let mut out = "Invalid last symbol ".to_owned();
                number::push_decimal(&mut out, byte as u64);
                out.append(", offset ");
                number::push_decimal(&mut out, at as u64);
                out.append(".");
                out
            },
            Base64Error::InvalidPadding => "Invalid padding".to_owned(),
        }
    }
}

impl KeyError {
    /// What is said of the text.
    pub fn to_string(&self) -> (r: String)
        ensures
            r@ == key_error_text(*self),
    {
        match *self {
            KeyError::Encoding(cause) => {
                let mut out = "key is not valid base64: ".to_owned();
                let detail = cause.to_string();
                out.append(detail.as_str());
                out
            },
            KeyError::Length(len) => {
                let mut out = "key must decode to 32 bytes, got ".to_owned();
                number::push_decimal(&mut out, len as u64);
                out
            },
        }
    }
}

// ---- outside calls ------------------------------------------------------

/// The bytes that the `base64` crate decodes a standard base64 text to, or why
/// it refuses it.
pub uninterp spec fn base64_read(s: Seq<char>) -> Result<Seq<u8>, Base64Error>;

/// The X25519 public key that `x25519_dalek` computes for a secret key.
pub uninterp spec fn x25519_public(secret: Seq<u8>) -> Seq<u8>;

/// A character of standard base64.
pub open spec fn base64_char(c: char) -> bool {
    ||| 'A' <= c <= 'Z'
    ||| 'a' <= c <= 'z'
    ||| '0' <= c <= '9'
    ||| c == '+'
    ||| c == '/'
    ||| c == '='
}

/// Whether a text is written in the characters of standard base64.
pub open spec fn in_base64(s: Seq<char>) -> bool {
    forall|i: int| 0 <= i < s.len() ==> base64_char(#[trigger] s[i])
}

/// Whether a text decodes to these bytes.
pub open spec fn decodes_to(s: Seq<char>, bytes: Seq<u8>) -> bool {
    base64_read(s) == Ok::<Seq<u8>, Base64Error>(bytes)
}

/// The bytes of a decoding, or its error.
pub open spec fn decoded(r: Result<Vec<u8>, Base64Error>) -> Result<Seq<u8>, Base64Error> {
    match r {
        Ok(v) => Ok(v@),
        Err(e) => Err(e),
    }
}

/// Whether a decoding gave these bytes.
pub open spec fn gave(r: Result<Vec<u8>, Base64Error>, bytes: Seq<u8>) -> bool {
    decoded(r) == Ok::<Seq<u8>, Base64Error>(bytes)
}

/// `Engine::encode` of `base64`'s `STANDARD` engine: standard base64 with
/// padding. What is encoded decodes to itself.
#[verifier::external_body]
fn encode_standard(bytes: &[u8]) -> (r: String)
    requires
        bytes@.len() <= 0x1000_0000,
    ensures
        r@ == encoding::base64(bytes@),
        decodes_to(r@, bytes@),
{
    base64::engine::general_purpose::STANDARD.encode(bytes)
}

/// `Engine::decode` of `base64`'s `STANDARD` engine; its four errors keep
/// their names and fields. It refuses missing padding, symbols of another
/// alphabet and bits left over in the last symbol, so it decodes the standard
/// base64 of some bytes, to those bytes, and nothing else.
#[verifier::external_body]
fn decode_standard(s: &str) -> (r: Result<Vec<u8>, Base64Error>)
    ensures
        decoded(r) == base64_read(s@),
        r matches Ok(bytes) ==> s@ == encoding::base64(bytes@),
        forall|bytes: Seq<u8>| s@ == #[trigger] encoding::base64(bytes) ==> gave(r, bytes),
{
    base64::engine::general_purpose::STANDARD.decode(s).map_err(
        |e| match e {
            base64::DecodeError::InvalidByte(at, byte) => Base64Error::InvalidByte(at, byte),
            base64::DecodeError::InvalidLength(len) => Base64Error::InvalidLength(len),
            base64::DecodeError::InvalidLastSymbol(at, byte) => {
                Base64Error::InvalidLastSymbol(at, byte)
            },
            base64::DecodeError::InvalidPadding => Base64Error::InvalidPadding,
        },
    )
}

/// `x25519_dalek::PublicKey::from` a `StaticSecret` of these bytes: 32 bytes
/// that depend on the secret alone.
#[verifier::external_body]
fn derive_public(secret: &[u8]) -> (r: Vec<u8>)
    requires
        secret@.len() == 32,
    ensures
        r@ == x25519_public(secret@),
        r@.len() == 32,
{
    let mut bytes = [0u8; 32];
    bytes.copy_from_slice(secret);
    let secret = x25519_dalek::StaticSecret::from(bytes);
    x25519_dalek::PublicKey::from(&secret).to_bytes().to_vec()
}

/// `x25519_dalek::StaticSecret::random_from_rng` with `rand`'s `OsRng`: 32
/// random bytes. Where the operating system has no randomness to give, it
/// panics.
#[verifier::external_body]
fn random_secret() -> (r: Vec<u8>)
    ensures
        r@.len() == 32,
{
    x25519_dalek::StaticSecret::random_from_rng(rand::rngs::OsRng).to_bytes().to_vec()
}

// ---- keys ---------------------------------------------------------------

/// A base64 WireGuard public key, validated on construction.
#[derive(Debug, PartialEq, Eq, Hash)]
pub struct PublicKey(String);

impl View for PublicKey {
    type V = Seq<char>;

    closed spec fn view(&self) -> Seq<char> {
        self.0@
    }
}

impl PublicKey {
    #[verifier::type_invariant]
    spec fn well_formed(self) -> bool {
        is_key(self.0@)
    }
}

impl Clone for PublicKey {
    fn clone(&self) -> (r: PublicKey)
        ensures
            r@ == self@,
    {
        proof {
            use_type_invariant(self);
        }
        PublicKey(self.0.clone())
    }
}

/// Why a text is not a key; `None` where it is one.
pub open spec fn key_fault(s: Seq<char>) -> Option<KeyError> {
    match base64_read(s) {
        Err(e) => Some(KeyError::Encoding(e)),
        Ok(bytes) => if bytes.len() != KEY_LEN {
            Some(KeyError::Length(bytes.len() as usize))
        } else {
            None
        },
    }
}

/// Whether a text is a key: the standard base64 of a key's worth of bytes,
/// which it decodes to.
pub open spec fn is_key(s: Seq<char>) -> bool {
    &&& key_fault(s) is None
    &&& s == encoding::base64(base64_read(s)->Ok_0)
}

/// Whether a text is the standard base64 of a key's worth of bytes.
pub open spec fn spells_key(s: Seq<char>) -> bool {
    exists|bytes: Seq<u8>| bytes.len() == KEY_LEN && s == #[trigger] encoding::base64(bytes)
}

/// A key is 44 characters of base64, the last of which is `=`.
pub proof fn law_key_has_44_characters(bytes: Seq<u8>)
    requires
        bytes.len() == KEY_LEN,
    ensures
        encoding::base64(bytes).len() == 44,
        encoding::base64(bytes).last() == '=',
        in_base64(encoding::base64(bytes)),
{
    let s = encoding::base64(bytes);
    assert forall|i: int| 0 <= i < s.len() implies base64_char(#[trigger] s[i]) by {
        encoding::lemma_six_bits(bytes, i);
        encoding::lemma_symbol(encoding::six_bits(bytes, i), '+', '/');
    }
}

impl PublicKey {
    pub fn as_str(&self) -> (r: &str)
        ensures
            r@ == self@,
            is_key(self@),
    {
        proof {
            use_type_invariant(self);
        }
        self.0.as_str()
    }

    /// Accepts a text that decodes to a key's worth of bytes.
    pub fn try_from(value: String) -> (r: Result<PublicKey, KeyError>)
        ensures
            match r {
                Ok(key) => key_fault(value@) is None && key@ == value@ && is_key(key@),
                Err(e) => key_fault(value@) == Some(e),
            },
            r is Ok <==> spells_key(value@),
    {
        match decode_standard(value.as_str()) {
            Err(e) => Err(KeyError::Encoding(e)),
            Ok(bytes) => {
                if bytes.len() != KEY_LEN {
                    return Err(KeyError::Length(bytes.len()));
                }
                Ok(PublicKey(value))
            },
        }
    }

    /// The key as base64.
    pub fn to_string(&self) -> (r: String)
        ensures
            r@ == self@,
            is_key(self@),
    {
        proof {
            use_type_invariant(self);
        }
        self.0.clone()
    }

    /// The key as base64, given up.
    pub fn into_string(self) -> (r: String)
        ensures
            r@ == self@,
            is_key(self@),
    {
        proof {
            use_type_invariant(&self);
        }
        self.0
    }
}

/// A freshly generated keypair. The private half is only ever held by the side
/// that generated it — the agent generates its own and sends up the public key
/// when it registers.
#[derive(Debug)]
pub struct KeyPair {
    pub private: String,
    pub public: PublicKey,
}

/// The public key that belongs to a private one, or why there is none.
pub open spec fn public_for(private_b64: Seq<char>) -> Result<Seq<char>, KeyError> {
    match base64_read(private_b64) {
        Err(e) => Err(KeyError::Encoding(e)),
        Ok(bytes) => if bytes.len() != KEY_LEN {
            Err(KeyError::Length(bytes.len() as usize))
        } else {
            Ok(encoding::base64(x25519_public(bytes)))
        },
    }
}

/// Whether `public` is the public key that belongs to `private_b64`.
pub open spec fn key_pair(private_b64: Seq<char>, public: Seq<char>) -> bool {
    public_for(private_b64) == Ok::<Seq<char>, KeyError>(public)
}

/// The keypair of a given secret: each half 44 characters of base64 ending in
/// `=`, the public one a valid key and the one that belongs to the private.
pub fn keypair_of(secret: &[u8]) -> (r: KeyPair)
    requires
        secret@.len() == 32,
    ensures
        r.private@ == encoding::base64(secret@),
        decodes_to(r.private@, secret@),
        r.public@ == encoding::base64(x25519_public(secret@)),
        key_pair(r.private@, r.public@),
        is_key(r.public@),
        r.private@.len() == 44,
        in_base64(r.private@),
        r.public@.len() == 44,
        r.public@.last() == '=',
{
    let public = derive_public(secret);
    proof {
        law_key_has_44_characters(secret@);
        law_key_has_44_characters(public@);
    }
    KeyPair {
        private: encode_standard(secret),
        public: PublicKey(encode_standard(public.as_slice())),
    }
}

/// A fresh keypair.
pub fn generate_keypair() -> (r: KeyPair)
    ensures
        key_pair(r.private@, r.public@),
        is_key(r.public@),
        r.private@.len() == 44,
        in_base64(r.private@),
        r.public@.len() == 44,
        r.public@.last() == '=',
{
    let secret = random_secret();
    keypair_of(secret.as_slice())
}

/// Derive the public key for an existing private key, so the agent can show
/// its identity without storing both halves.
pub fn public_from_private(private_b64: &str) -> (r: Result<PublicKey, KeyError>)
    ensures
        match r {
            Ok(key) => public_for(private_b64@) == Ok::<Seq<char>, KeyError>(key@) && key_fault(
                key@,
            ) is None && is_key(key@),
            Err(e) => public_for(private_b64@) == Err::<Seq<char>, KeyError>(e),
        },
        r is Ok <==> spells_key(private_b64@),
        forall|secret: Seq<u8>|
            secret.len() == KEY_LEN && private_b64@ == #[trigger] encoding::base64(secret) ==> (
            r matches Ok(key) && key@ == encoding::base64(x25519_public(secret))),
{
    match decode_standard(private_b64) {
        Err(e) => Err(KeyError::Encoding(e)),
        Ok(bytes) => {
            if bytes.len() != KEY_LEN {
                return Err(KeyError::Length(bytes.len()));
            }
            let public = derive_public(bytes.as_slice());
            Ok(PublicKey(encode_standard(public.as_slice())))
        },
    }
}

} // verus!
