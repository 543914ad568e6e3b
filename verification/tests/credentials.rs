use base64::Engine as _;
use portal::token::{generate, hash, token_of, verify};
use portal::wg::{
    generate_keypair, keypair_of, public_from_private, Base64Error, KeyError, PublicKey,
};

#[test]
fn tokens_are_long_and_never_repeat() {
    let a = generate();
    let b = generate();
    assert_ne!(a, b);
    assert!(a.len() >= 43, "256 bits of base64: {a}");
}

#[test]
fn hashing_is_stable_and_not_the_token_itself() {
    let token = generate();
    assert_eq!(hash(&token), hash(&token));
    assert_ne!(hash(&token), token);
    assert_eq!(hash("").len(), 64);
}

#[test]
fn verify_accepts_the_real_token_and_rejects_everything_else() {
    let token = generate();
    let stored = hash(&token);
    assert!(verify(&token, &stored));
    assert!(!verify("wrong", &stored));
    assert!(!verify(&token, "short"));
}

#[test]
fn a_hash_is_the_hexadecimal_sha_256() {
    assert_eq!(
        hash(""),
        "e3b0c44298fc1c149afbf4c8996fb92427ae41e4649b934ca495991b7852b855"
    );
    assert_eq!(
        hash("abc"),
        "ba7816bf8f01cfea414140de5dae2223b00361a396177a9cb410ff61f20015ad"
    );
}

#[test]
fn a_stored_hash_of_the_right_length_still_has_to_match() {
    let stored = hash("abc");
    let mut other = stored.clone();
    other.replace_range(63..64, "e");
    assert!(verify("abc", &stored));
    assert!(!verify("abc", &other));
    assert!(!verify("abc", &stored.to_uppercase()));
}

#[test]
fn tokens_are_url_safe_base64_without_padding() {
    assert_eq!(
        token_of(&[255u8; 32]),
        "__________________________________________8"
    );
}

#[test]
fn the_two_alphabets_differ_in_their_last_symbols() {
    let mut bytes = [0u8; 32];
    bytes[0] = 0xfb;
    bytes[1] = 0xff;
    bytes[31] = 1;
    assert_eq!(
        keypair_of(&bytes).private,
        "+/8AAAAAAAAAAAAAAAAAAAAAAAAAAAAAAAAAAAAAAAE="
    );
    assert_eq!(
        token_of(&bytes),
        "-_8AAAAAAAAAAAAAAAAAAAAAAAAAAAAAAAAAAAAAAAE"
    );
}

#[test]
fn generated_keys_round_trip() {
    let pair = generate_keypair();
    assert_eq!(public_from_private(&pair.private).unwrap(), pair.public);
}

#[test]
fn public_keys_are_44_char_base64() {
    let pair = generate_keypair();
    assert_eq!(pair.public.as_str().len(), 44);
    assert!(pair.public.as_str().ends_with('='));
}

#[test]
fn rejects_wrong_length_keys() {
    let short = base64::engine::general_purpose::STANDARD.encode([0u8; 16]);
    assert!(matches!(
        PublicKey::try_from(short),
        Err(KeyError::Length(16))
    ));
}

#[test]
fn rejects_non_base64() {
    assert!(matches!(
        PublicKey::try_from("not a key!!".to_string()),
        Err(KeyError::Encoding(_))
    ));
}

const PRIVATE: &str = "CQAAAAAAAAAAAAAAAAAAAAAAAAAAAAAAAAAAAAAAAAA=";
const PUBLIC: &str = "QiyOemIn17yhNQs+K7cnn3iXuHu2hUt4PGDoAxGuMHk=";

#[test]
fn the_public_key_is_the_curve25519_one() {
    assert_eq!(public_from_private(PRIVATE).unwrap().as_str(), PUBLIC);
    let secret = base64::engine::general_purpose::STANDARD
        .decode(PRIVATE)
        .unwrap();
    let pair = keypair_of(&secret);
    assert_eq!(pair.private, PRIVATE);
    assert_eq!(pair.public.to_string(), PUBLIC);
    assert_eq!(pair.public.into_string(), PUBLIC);
}

#[test]
fn two_generated_keys_differ() {
    assert_ne!(generate_keypair().private, generate_keypair().private);
}

#[test]
fn each_way_a_key_can_be_malformed_is_told_apart() {
    let cases = [
        (
            "A!==",
            Base64Error::InvalidByte(1, b'!'),
            "key is not valid base64: Invalid symbol 33, offset 1.",
        ),
        (
            "AAAAA",
            Base64Error::InvalidLength(5),
            "key is not valid base64: Invalid input length: 5",
        ),
        (
            "AB==",
            Base64Error::InvalidLastSymbol(1, b'B'),
            "key is not valid base64: Invalid last symbol 66, offset 1.",
        ),
        (
            "AAA",
            Base64Error::InvalidPadding,
            "key is not valid base64: Invalid padding",
        ),
    ];
    for (text, cause, message) in cases {
        let err = PublicKey::try_from(text.to_string()).unwrap_err();
        assert_eq!(err, KeyError::Encoding(cause), "{text}");
        assert_eq!(err.to_string(), message);
    }
    let err = public_from_private("AAAA").unwrap_err();
    assert_eq!(err, KeyError::Length(3));
    assert_eq!(err.to_string(), "key must decode to 32 bytes, got 3");
}

#[test]
fn an_accepted_key_is_44_characters_of_base64() {
    let pair = generate_keypair();
    let text = pair.public.to_string();
    let key = PublicKey::try_from(text.clone()).unwrap();
    assert_eq!(key.as_str(), text);
    assert_eq!(key.as_str().len(), 44);
    // Without its padding, and with bits left over in the last symbol, it is
    // another text.
    assert!(PublicKey::try_from(text[..43].to_string()).is_err());
    let mut odd: String = text[..42].to_string();
    odd.push_str("B=");
    assert!(PublicKey::try_from(odd).is_err());
    assert_eq!(
        public_from_private(&pair.private).unwrap().as_str().len(),
        44
    );
}
