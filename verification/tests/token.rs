use relay::protocol::digest;
use relay::protocol::digest_eq;
use relay::protocol::HASH_WIDTH_IN_BYTES;
use relay::token::hash_token;
use relay::token::legacy_response_for_token;
use relay::token::parse_token_hash;
use relay::token::response_for_token;
use relay::token::response_for_token_hash;
use relay::token::validate_token_hash;
use relay::token::HexError;
use relay::token::TokenHashError;
use relay::token::TOKEN_HASH_PREFIX;

const SECRET_HASH: &str =
    "sha256:2bb80d537b1da3e38bd30361aa855686bde0eacd7162fef6a25fe97bf527a25b";

#[test]
fn token_hash_roundtrips() {
    let encoded = hash_token("secret");
    let parsed = parse_token_hash(&encoded).unwrap();
    assert_eq!(
        parse_token_hash(encoded.trim_start_matches(TOKEN_HASH_PREFIX)).unwrap(),
        parsed
    );
}

#[test]
fn token_response_matches_hash_response() {
    let nonce = [7u8; HASH_WIDTH_IN_BYTES];
    let token_hash = parse_token_hash(&hash_token("secret")).unwrap();
    assert_eq!(
        response_for_token("secret", &nonce),
        response_for_token_hash(&token_hash, &nonce)
    );
    assert_ne!(
        response_for_token("wrong", &nonce),
        response_for_token_hash(&token_hash, &nonce)
    );
}

#[test]
fn legacy_response_matches_original_concat() {
    let nonce = [9u8; HASH_WIDTH_IN_BYTES];
    let mut bytes = Vec::from("secret".as_bytes());
    bytes.extend_from_slice(&nonce);

    assert_eq!(legacy_response_for_token("secret", &nonce), digest(&bytes));
}

#[test]
fn digests_are_those_of_sha256() {
    assert_eq!(hash_token("secret"), SECRET_HASH);
    assert_eq!(
        hash_token(""),
        "sha256:e3b0c44298fc1c149afbf4c8996fb92427ae41e4649b934ca495991b7852b855"
    );
    let response = "2fe853b5d4735c1972274bd2fd6bae778b4d7d8ca1b2fc42fa5f5d85a764ed6c";
    assert_eq!(
        response_for_token("secret", &[7u8; 32]),
        parse_token_hash(response).unwrap()
    );
    let legacy = "b91c0382cb5639ba4fb7d5e2497a6ef0c804f662817b0fb0ed89983245546c5a";
    assert_eq!(
        legacy_response_for_token("secret", &[9u8; 32]),
        parse_token_hash(legacy).unwrap()
    );
}

#[test]
fn token_hashes_parse_in_either_case() {
    let mut expected = [0u8; 32];
    expected[0] = 0xab;
    expected[31] = 0x0f;
    let digits = format!("aB{}0F", "00".repeat(30));
    assert_eq!(parse_token_hash(&digits), Ok(expected));
    assert_eq!(parse_token_hash(&format!("sha256:{digits}")), Ok(expected));
}

#[test]
fn prefix_is_cut_once_and_in_lowercase_only() {
    let twice = format!("sha256:{SECRET_HASH}");
    assert_eq!(
        parse_token_hash(&twice),
        Err(TokenHashError::InvalidHex(HexError::OddLength))
    );
    let shouted = format!("SHA256:-{}", "0".repeat(64));
    assert_eq!(
        parse_token_hash(&shouted),
        Err(TokenHashError::InvalidHex(HexError::InvalidHexCharacter { c: 'S', index: 0 }))
    );
}

#[test]
fn odd_number_of_digits_is_refused_first() {
    let error = parse_token_hash("sha256:xyz").unwrap_err();
    assert_eq!(error, TokenHashError::InvalidHex(HexError::OddLength));
    assert_eq!(error.message(), "invalid token_hash hex: Odd number of digits");
    assert_eq!(error.outer_message(), "invalid token_hash hex");
    assert_eq!(HexError::OddLength.message(), "Odd number of digits");
}

#[test]
fn first_wrong_digit_is_reported() {
    let error = parse_token_hash("00ag?0").unwrap_err();
    assert_eq!(
        error,
        TokenHashError::InvalidHex(HexError::InvalidHexCharacter { c: 'g', index: 3 })
    );
    assert_eq!(error.message(), "invalid token_hash hex: Invalid character 'g' at position 3");
    let error = parse_token_hash("00'0").unwrap_err();
    assert_eq!(error.message(), "invalid token_hash hex: Invalid character '\\'' at position 2");
}

#[test]
fn wrong_digit_is_reported_by_byte() {
    assert_eq!(
        parse_token_hash("0\u{e9}0"),
        Err(TokenHashError::InvalidHex(HexError::InvalidHexCharacter { c: '\u{c3}', index: 1 }))
    );
}

#[test]
fn wrong_number_of_bytes_is_refused() {
    assert_eq!(parse_token_hash(""), Err(TokenHashError::WrongLength { got: 0 }));
    assert_eq!(parse_token_hash("sha256:"), Err(TokenHashError::WrongLength { got: 0 }));
    let error = parse_token_hash(&"00".repeat(33)).unwrap_err();
    assert_eq!(error, TokenHashError::WrongLength { got: 33 });
    assert_eq!(error.message(), "token_hash must be 32 bytes, got 33");
    assert_eq!(error.outer_message(), "token_hash must be 32 bytes, got 33");
}

#[test]
fn length_error_of_hexadecimal_text_has_a_message() {
    assert_eq!(
        TokenHashError::InvalidHex(HexError::InvalidStringLength).message(),
        "invalid token_hash hex: Invalid string length"
    );
}

#[test]
fn validation_says_how_to_make_a_hash() {
    assert_eq!(validate_token_hash(SECRET_HASH), Ok(()));
    assert_eq!(
        validate_token_hash("abcd"),
        Err("token_hash must be 32 bytes, got 2. Generate a relay token hash with \
             `rathole --hash-token <token>`"
            .to_string())
    );
    assert_eq!(
        validate_token_hash("0"),
        Err("invalid token_hash hex: Odd number of digits. Generate a relay token hash with \
             `rathole --hash-token <token>`"
            .to_string())
    );
}

#[test]
fn every_digest_survives_its_text() {
    for seed in 0..=255u8 {
        let token = format!("token {seed}");
        let encoded = hash_token(&token);
        assert_eq!(encoded.len(), 71);
        assert_eq!(parse_token_hash(&encoded), Ok(digest(token.as_bytes())));
        assert_eq!(parse_token_hash(&encoded[7..]), Ok(digest(token.as_bytes())));
    }
}

#[test]
fn digests_are_compared_in_every_byte() {
    let base = digest(b"base");
    assert!(digest_eq(&base, &base));
    for index in 0..32 {
        let mut other = base;
        other[index] ^= 1;
        assert!(!digest_eq(&base, &other));
    }
}
