//! Tunnel tokens: their hashes in configuration files and the responses that
//! prove knowledge of them.

use vstd::prelude::*;
use vstd::string::StringExecFns;
use vstd::utf8::encode_utf8;
use vstd::utf8::is_ascii_chars;
use vstd::utf8::is_ascii_chars_encode_utf8;

use crate::protocol::digest;
use crate::protocol::digest_pair;
use crate::protocol::sha256;
use crate::protocol::Digest;
use crate::protocol::HASH_WIDTH_IN_BYTES;
use crate::text::append_decimal;
use crate::text::decimal;
use crate::text::prefix_is_cut_where_it_stands;
use crate::text::strip_prefix;
use crate::text::without_prefix;

verus! {

/// Marks a token hash in a configuration file.
pub const TOKEN_HASH_PREFIX: &'static str = "sha256:";

/// Why a text is not the hexadecimal form of some bytes.
#[derive(Clone, Copy, Debug, PartialEq, Eq, Structural)]
pub enum HexError {
    /// Two digits make a byte, so their number has to be even.
    OddLength,
    /// The byte at `index` is not a hexadecimal digit; `c` is that byte as a character.
    InvalidHexCharacter { c: char, index: usize },
    /// The text is too short or too long for a buffer of fixed size.
    InvalidStringLength,
}

/// Why a text is not a token hash.
#[derive(Clone, Copy, Debug, PartialEq, Eq, Structural)]
pub enum TokenHashError {
    /// The text behind the prefix is not hexadecimal.
    InvalidHex(HexError),
    /// The text behind the prefix holds `got` bytes in place of a digest.
    WrongLength { got: usize },
}

/// The lowercase hexadecimal digit of a number below sixteen.
pub open spec fn hex_digit(n: int) -> char {
    if n < 10 {
        ('0' as u32 + n) as char
    } else {
        ('a' as u32 + n - 10) as char
    }
}

/// Two lowercase hexadecimal digits for each byte, the high half first.
pub open spec fn hex_text(bytes: Seq<u8>) -> Seq<char> {
    Seq::new(
        2 * bytes.len(),
        |i: int| hex_digit(if i % 2 == 0 { bytes[i / 2] as int / 16 } else { bytes[i / 2] as int % 16 }),
    )
}

/// The number that a hexadecimal digit of either case stands for.
pub open spec fn hex_value(digit: u8) -> Option<int> {
    if '0' as u8 <= digit <= '9' as u8 {
        Some(digit - '0' as u8)
    } else if 'a' as u8 <= digit <= 'f' as u8 {
        Some(digit - 'a' as u8 + 10)
    } else if 'A' as u8 <= digit <= 'F' as u8 {
        Some(digit - 'A' as u8 + 10)
    } else {
        None
    }
}

/// Whether `index` is the first place in `text` without a hexadecimal digit.
pub open spec fn first_non_digit(text: Seq<u8>, index: int) -> bool {
    &&& 0 <= index < text.len()
    &&& hex_value(text[index]) is None
    &&& forall|i: int| 0 <= i < index ==> hex_value(#[trigger] text[i]) is Some
}

/// The bytes whose hexadecimal form is `text`.
pub open spec fn hex_bytes(text: Seq<u8>) -> Result<Seq<u8>, HexError> {
    if text.len() % 2 != 0 {
        Err(HexError::OddLength)
    } else if exists|i: int| first_non_digit(text, i) {
        let index = choose|i: int| first_non_digit(text, i);
        Err(HexError::InvalidHexCharacter { c: text[index] as char, index: index as usize })
    } else {
        Ok(
            Seq::new(
                (text.len() / 2) as nat,
                |i: int| (16 * hex_value(text[2 * i])->0 + hex_value(text[2 * i + 1])->0) as u8,
            ),
        )
    }
}

/// `hex::encode`: two lowercase digits for each byte of the digest.
#[verifier::external_body]
pub(crate) fn hex_encode(hash: &Digest) -> (text: String)
    ensures
        text@ == hex_text(hash@),
{
    hex::encode(hash)
}

/// `hex::decode`: the bytes that the digits of the UTF-8 form of `text` stand
/// for, in pairs and in either case. An odd number of bytes is refused first;
/// otherwise the first byte that is no digit is reported with its index.
#[verifier::external_body]
fn hex_decode(text: &str) -> (bytes: Result<Vec<u8>, HexError>)
    ensures
        match bytes {
            Ok(bytes) => hex_bytes(encode_utf8(text@)) == Ok::<Seq<u8>, HexError>(bytes@),
            Err(error) => hex_bytes(encode_utf8(text@)) == Err::<Seq<u8>, HexError>(error),
        },
{
    match hex::decode(text) {
        Ok(bytes) => Ok(bytes),
        Err(hex::FromHexError::OddLength) => Err(HexError::OddLength),
        Err(hex::FromHexError::InvalidHexCharacter { c, index }) => {
            Err(HexError::InvalidHexCharacter { c, index })
        },
        Err(hex::FromHexError::InvalidStringLength) => Err(HexError::InvalidStringLength),
    }
}

/// How a character is written between single quotes in Rust source, quotes and
/// escapes included.
pub uninterp spec fn quoted_char(c: char) -> Seq<char>;

/// The text of a hexadecimal error.
pub open spec fn hex_error_text(error: HexError) -> Seq<char> {
    match error {
        HexError::OddLength => "Odd number of digits"@,
        HexError::InvalidHexCharacter { c, index } => "Invalid character "@ + quoted_char(c)
            + " at position "@ + decimal(index as nat),
        HexError::InvalidStringLength => "Invalid string length"@,
    }
}

/// `Display` of `hex::FromHexError`: a fixed text for each kind of error, which
/// for a wrong character quotes it, as `Debug` of `char` does, and gives its
/// index. Nothing is said of how a character is quoted.
#[verifier::external_body]
fn describe_hex_error(error: HexError) -> (text: String)
    ensures
        match error {
            HexError::OddLength => text@ == "Odd number of digits"@,
            HexError::InvalidHexCharacter { c, index } => text@ == "Invalid character "@
                + quoted_char(c) + " at position "@ + decimal(index as nat),
            HexError::InvalidStringLength => text@ == "Invalid string length"@,
        },
{
    match error {
        HexError::OddLength => hex::FromHexError::OddLength.to_string(),
        HexError::InvalidHexCharacter { c, index } => {
            hex::FromHexError::InvalidHexCharacter { c, index }.to_string()
        },
        HexError::InvalidStringLength => hex::FromHexError::InvalidStringLength.to_string(),
    }
}

/// The digits of a token hash: the text behind the prefix, or all of it when
/// the prefix is missing.
pub open spec fn token_hash_digits(value: Seq<char>) -> Seq<char> {
    match without_prefix(value, TOKEN_HASH_PREFIX@) {
        Some(rest) => rest,
        None => value,
    }
}

/// The outcome of parsing a token hash.
pub open spec fn parsed_token_hash(value: Seq<char>) -> Result<Seq<u8>, TokenHashError> {
    match hex_bytes(encode_utf8(token_hash_digits(value))) {
        Err(error) => Err(TokenHashError::InvalidHex(error)),
        Ok(bytes) => if bytes.len() == HASH_WIDTH_IN_BYTES {
            Ok(bytes)
        } else {
            Err(TokenHashError::WrongLength { got: bytes.len() as usize })
        },
    }
}

/// The form in which a token hash stands in a configuration file.
pub open spec fn token_hash_text(hash: Seq<u8>) -> Seq<char> {
    TOKEN_HASH_PREFIX@ + hex_text(hash)
}

/// Hashes `token` into the form that a configuration file holds.
pub fn hash_token(token: &str) -> (text: String)
    ensures
        text@ == token_hash_text(sha256(encode_utf8(token@))@),
        text@ == "sha256:"@ + hex_text(sha256(encode_utf8(token@))@),
        parsed_token_hash(text@) == Ok::<Seq<u8>, TokenHashError>(sha256(encode_utf8(token@))@),
{
    let hash = digest(token.as_bytes());
    let mut text = String::from_str(TOKEN_HASH_PREFIX);
    text.append(hex_encode(&hash).as_str());
    proof {
        token_hash_text_round_trips(hash);
    }
    text
}

/// Parses a token hash, with or without its prefix.
pub fn parse_token_hash(value: &str) -> (hash: Result<Digest, TokenHashError>)
    ensures
        match hash {
            Ok(hash) => parsed_token_hash(value@) == Ok::<Seq<u8>, TokenHashError>(hash@),
            Err(error) => parsed_token_hash(value@) == Err::<Seq<u8>, TokenHashError>(error),
        },
{
    let digits = match strip_prefix(value, TOKEN_HASH_PREFIX) {
        Some(rest) => rest,
        None => value,
    };
    let bytes = match hex_decode(digits) {
        Ok(bytes) => bytes,
        Err(error) => return Err(TokenHashError::InvalidHex(error)),
    };
    if bytes.len() != HASH_WIDTH_IN_BYTES {
        return Err(TokenHashError::WrongLength { got: bytes.len() });
    }
    let mut hash: Digest = [0u8; HASH_WIDTH_IN_BYTES];
    for i in 0..HASH_WIDTH_IN_BYTES
        invariant
            bytes.len() == HASH_WIDTH_IN_BYTES,
            forall|j: int| 0 <= j < i ==> hash@[j] == bytes[j],
    {
        hash[i] = bytes[i];
    }
    assert(hash@ == bytes@);
    Ok(hash)
}

impl HexError {
    /// Describes the error.
    pub fn message(&self) -> (text: String)
        ensures
            text@ == hex_error_text(*self),
            text@ == match *self {
                HexError::OddLength => "Odd number of digits"@,
                HexError::InvalidHexCharacter { c, index } => "Invalid character "@ + quoted_char(c)
                    + " at position "@ + decimal(index as nat),
                HexError::InvalidStringLength => "Invalid string length"@,
            },
    {
        describe_hex_error(*self)
    }
}

impl TokenHashError {
    /// The text of the error itself, without its cause.
    pub open spec fn outer_text(self) -> Seq<char> {
        match self {
            TokenHashError::InvalidHex(_) => "invalid token_hash hex"@,
            TokenHashError::WrongLength { got } => "token_hash must be 32 bytes, got "@ + decimal(
                got as nat,
            ),
        }
    }

    /// The text of the error and, behind a colon, that of its cause.
    pub open spec fn text(self) -> Seq<char> {
        match self {
            TokenHashError::InvalidHex(error) => self.outer_text() + ": "@ + hex_error_text(error),
            TokenHashError::WrongLength { .. } => self.outer_text(),
        }
    }

    /// Describes the error without its cause.
    pub fn outer_message(&self) -> (text: String)
        ensures
            text@ == self.outer_text(),
            text@ == match *self {
                TokenHashError::InvalidHex(_) => "invalid token_hash hex"@,
                TokenHashError::WrongLength { got } => "token_hash must be 32 bytes, got "@
                    + decimal(got as nat),
            },
    {
        match self {
            TokenHashError::InvalidHex(_) => String::from_str("invalid token_hash hex"),
            TokenHashError::WrongLength { got } => {
                let mut text = String::from_str("token_hash must be 32 bytes, got ");
                append_decimal(&mut text, *got as u64);
                text
            },
        }
    }

    /// Describes the error with the whole chain of its causes.
    pub fn message(&self) -> (text: String)
        ensures
            text@ == self.text(),
            text@ == match *self {
                TokenHashError::InvalidHex(error) => "invalid token_hash hex"@ + ": "@
                    + hex_error_text(error),
                TokenHashError::WrongLength { got } => "token_hash must be 32 bytes, got "@
                    + decimal(got as nat),
            },
    {
        let mut text = self.outer_message();
        if let TokenHashError::InvalidHex(error) = self {
            text.append(": ");
            text.append(error.message().as_str());
        }
        text
    }
}

/// Checks a token hash; the error says what is wrong and how to make one.
pub fn validate_token_hash(value: &str) -> (checked: Result<(), String>)
    ensures
        match parsed_token_hash(value@) {
            Ok(_) => checked is Ok,
            Err(error) => checked matches Err(text) && text@ == error.text()
                + ". Generate a relay token hash with `rathole --hash-token <token>`"@,
        },
        checked is Ok <==> parsed_token_hash(value@) is Ok,
        parsed_token_hash(value@) matches Err(TokenHashError::InvalidHex(error)) ==> (checked
            matches Err(text) && text@ == "invalid token_hash hex"@ + ": "@ + hex_error_text(error)
            + ". Generate a relay token hash with `rathole --hash-token <token>`"@),
        parsed_token_hash(value@) matches Err(TokenHashError::WrongLength { got }) ==> (checked
            matches Err(text) && text@ == "token_hash must be 32 bytes, got "@ + decimal(
            got as nat,
        ) + ". Generate a relay token hash with `rathole --hash-token <token>`"@),
{
    match parse_token_hash(value) {
        Ok(_) => Ok(()),
        Err(error) => {
            let mut text = error.message();
            text.append(". Generate a relay token hash with `rathole --hash-token <token>`");
            Err(text)
        },
    }
}

/// The response to a nonce that a token hash leads to: the digest of the hash
/// with the nonce behind it.
pub open spec fn token_hash_response(token_hash: Seq<u8>, nonce: Seq<u8>) -> Digest {
    sha256(token_hash + nonce)
}

/// The response to a nonce that a token leads to: that of its hash.
pub open spec fn token_response(token: Seq<char>, nonce: Seq<u8>) -> Digest {
    token_hash_response(sha256(encode_utf8(token))@, nonce)
}

/// The response to `nonce` of a client that knows `token`.
pub fn response_for_token(token: &str, nonce: &Digest) -> (response: Digest)
    ensures
        response == token_response(token@, nonce@),
        response == sha256(sha256(encode_utf8(token@))@ + nonce@),
{
    let token_hash = digest(token.as_bytes());
    response_for_token_hash(&token_hash, nonce)
}

/// The response to `nonce` that is expected for a token with the given hash.
pub fn response_for_token_hash(token_hash: &Digest, nonce: &Digest) -> (response: Digest)
    ensures
        response == token_hash_response(token_hash@, nonce@),
        response == sha256(token_hash@ + nonce@),
{
    digest_pair(token_hash, nonce)
}

/// The response of clients that hash the token itself with the nonce.
pub fn legacy_response_for_token(token: &str, nonce: &Digest) -> (response: Digest)
    ensures
        response == sha256(encode_utf8(token@) + nonce@),
{
    digest_pair(token.as_bytes(), nonce)
}

/// Parsing gives back the digest that a token hash was written from, with the
/// prefix and without it.
pub proof fn token_hash_text_round_trips(hash: Digest)
    ensures
        parsed_token_hash(token_hash_text(hash@)) == Ok::<Seq<u8>, TokenHashError>(hash@),
        parsed_token_hash(hex_text(hash@)) == Ok::<Seq<u8>, TokenHashError>(hash@),
{
    let digits = hex_text(hash@);
    let text = token_hash_text(hash@);
    reveal_strlit("sha256:");
    assert(text.take(TOKEN_HASH_PREFIX@.len() as int) == TOKEN_HASH_PREFIX@);
    assert(text.skip(TOKEN_HASH_PREFIX@.len() as int) == digits);
    assert(digits[0] != 's');
    assert(digits.take(TOKEN_HASH_PREFIX@.len() as int)[0] == digits[0]);
    assert(token_hash_digits(digits) == digits);
    lemma_hex_bytes_of_text(hash@);
}

/// A client that knows a token gives the response that is expected of it by a
/// relay that knows only the text of its hash.
pub proof fn token_and_hash_give_one_response(token: Seq<char>, nonce: Seq<u8>)
    ensures
        parsed_token_hash(token_hash_text(sha256(encode_utf8(token))@)) matches Ok(token_hash)
            && token_hash_response(token_hash, nonce) == token_response(token, nonce),
{
    token_hash_text_round_trips(sha256(encode_utf8(token)));
}

proof fn lemma_hex_bytes_of_text(bytes: Seq<u8>)
    ensures
        hex_bytes(encode_utf8(hex_text(bytes))) == Ok::<Seq<u8>, HexError>(bytes),
{
    let digits = hex_text(bytes);
    assert(is_ascii_chars(digits));
    is_ascii_chars_encode_utf8(digits);
    let utf8 = encode_utf8(digits);
    assert forall|i: int| 0 <= i < utf8.len() implies hex_value(#[trigger] utf8[i]) == Some(
        if i % 2 == 0 { bytes[i / 2] as int / 16 } else { bytes[i / 2] as int % 16 },
    ) by {
        assert(digits[i] as u8 == utf8[i]);
    }
    assert(hex_bytes(utf8)->Ok_0 == bytes);
}

/// A response is the digest of the token hash with the nonce behind it, byte for
/// byte in their order.
pub proof fn response_is_digest_of_hash_and_nonce(
    token: Seq<char>,
    token_hash: Seq<u8>,
    nonce: Seq<u8>,
)
    ensures
        token_hash_response(token_hash, nonce) == sha256(token_hash + nonce),
        token_response(token, nonce) == sha256(sha256(encode_utf8(token))@ + nonce),
{
}

/// Whether `byte` is one of `0` to `9`, `a` to `f` and `A` to `F`.
pub open spec fn is_hex_byte(byte: u8) -> bool {
    0x30 <= byte <= 0x39 || 0x61 <= byte <= 0x66 || 0x41 <= byte <= 0x46
}

/// What a hexadecimal digit is worth.
pub open spec fn digit_worth(byte: u8) -> int {
    if byte <= 0x39 {
        byte - 0x30
    } else if byte <= 0x46 {
        byte - 0x37
    } else {
        byte - 0x57
    }
}

/// Each byte is written as two digits in lowercase that are worth its halves.
pub proof fn hex_text_is_worth_its_bytes(bytes: Seq<u8>)
    ensures
        hex_text(bytes).len() == 2 * bytes.len(),
        forall|i: int|
            0 <= i < hex_text(bytes).len() ==> '0' <= #[trigger] hex_text(bytes)[i] <= '9' || 'a'
                <= hex_text(bytes)[i] <= 'f',
        forall|i: int|
            0 <= i < bytes.len() ==> #[trigger] bytes[i] == 16 * digit_worth(
                hex_text(bytes)[2 * i] as u8,
            ) + digit_worth(hex_text(bytes)[2 * i + 1] as u8),
{
    assert forall|i: int| 0 <= i < hex_text(bytes).len() implies ('0' <= #[trigger] hex_text(
        bytes,
    )[i] <= '9' || 'a' <= hex_text(bytes)[i] <= 'f') && digit_worth(hex_text(bytes)[i] as u8)
        == if i % 2 == 0 { bytes[i / 2] as int / 16 } else { bytes[i / 2] as int % 16 } by {
        let half = if i % 2 == 0 { bytes[i / 2] as int / 16 } else { bytes[i / 2] as int % 16 };
        assert(hex_text(bytes)[i] == hex_digit(half));
        assert(0 <= half < 16);
    }
    assert forall|i: int| 0 <= i < bytes.len() implies #[trigger] bytes[i] == 16 * digit_worth(
        hex_text(bytes)[2 * i] as u8,
    ) + digit_worth(hex_text(bytes)[2 * i + 1] as u8) by {
        let high = hex_text(bytes)[2 * i];
        let low = hex_text(bytes)[2 * i + 1];
        assert((2 * i) / 2 == i && (2 * i) % 2 == 0 && (2 * i + 1) / 2 == i && (2 * i + 1) % 2
            == 1);
    }
}

/// A token hash is read from the UTF-8 form of its digits, which are what stands
/// behind `sha256:`, or all of the text without it. It is accepted if and only if
/// there are sixty-four hexadecimal digits, and each byte is worth its two digits.
/// Otherwise an odd number of bytes is reported first, then the first one that is
/// no digit, then how many bytes the digits make.
pub proof fn token_hash_is_worth_its_digits(value: Seq<char>, digits: Seq<char>)
    requires
        value == "sha256:"@ + digits || (value == digits && !"sha256:"@.is_prefix_of(value)),
    ensures
        ({
            let bytes = encode_utf8(digits);
            let parsed = parsed_token_hash(value);
            let hex = forall|i: int| 0 <= i < bytes.len() ==> is_hex_byte(#[trigger] bytes[i]);
            &&& parsed is Ok <==> bytes.len() == 64 && hex
            &&& parsed matches Ok(hash) ==> hash.len() == 32 && forall|i: int|
                0 <= i < 32 ==> #[trigger] hash[i] == 16 * digit_worth(bytes[2 * i]) + digit_worth(
                    bytes[2 * i + 1],
                )
            &&& bytes.len() % 2 == 1 ==> parsed == Err::<Seq<u8>, TokenHashError>(
                TokenHashError::InvalidHex(HexError::OddLength),
            )
            &&& forall|k: int|
                bytes.len() % 2 == 0 && 0 <= k < bytes.len() && !is_hex_byte(#[trigger] bytes[k])
                    && (forall|i: int| 0 <= i < k ==> is_hex_byte(#[trigger] bytes[i]))
                    ==> parsed == Err::<Seq<u8>, TokenHashError>(
                    TokenHashError::InvalidHex(
                        HexError::InvalidHexCharacter { c: bytes[k] as char, index: k as usize },
                    ),
                )
            &&& bytes.len() % 2 == 0 && bytes.len() != 64 && hex ==> parsed == Err::<
                Seq<u8>,
                TokenHashError,
            >(TokenHashError::WrongLength { got: (bytes.len() / 2) as usize })
        }),
{
    let bytes = encode_utf8(digits);
    reveal_strlit("sha256:");
    prefix_is_cut_where_it_stands(value, TOKEN_HASH_PREFIX@, digits);
    assert(token_hash_digits(value) == digits);
    assert forall|b: u8| is_hex_byte(b) == (#[trigger] hex_value(b) is Some) && (is_hex_byte(b)
        ==> hex_value(b) == Some(digit_worth(b))) by {}
    assert forall|k: int|
        0 <= k < bytes.len() && !is_hex_byte(#[trigger] bytes[k]) && (forall|i: int|
            0 <= i < k ==> is_hex_byte(#[trigger] bytes[i])) implies first_non_digit(bytes, k)
        && (forall|j: int| first_non_digit(bytes, j) ==> j == k) by {
        assert(hex_value(bytes[k]) is None);
        assert forall|i: int| 0 <= i < k implies hex_value(#[trigger] bytes[i]) is Some by {
            assert(is_hex_byte(bytes[i]));
        }
        assert(first_non_digit(bytes, k));
        assert forall|j: int| first_non_digit(bytes, j) implies j == k by {
            if j < k {
                assert(is_hex_byte(bytes[j]));
                assert(hex_value(bytes[j]) is Some);
            } else if k < j {
                assert(hex_value(bytes[k]) is Some);
            }
        }
    }
    if exists|i: int| first_non_digit(bytes, i) {
        let i = choose|i: int| first_non_digit(bytes, i);
        assert(!is_hex_byte(bytes[i]));
    } else {
        assert forall|i: int| 0 <= i < bytes.len() implies is_hex_byte(#[trigger] bytes[i]) by {
            lemma_no_first_non_digit(bytes, i);
        }
    }
    if let Ok(hash) = parsed_token_hash(value) {
        assert forall|i: int| 0 <= i < 32 implies #[trigger] hash[i] == 16 * digit_worth(
            bytes[2 * i],
        ) + digit_worth(bytes[2 * i + 1]) by {
            assert(is_hex_byte(bytes[2 * i]));
            assert(is_hex_byte(bytes[2 * i + 1]));
            assert(hex_value(bytes[2 * i]) == Some(digit_worth(bytes[2 * i])));
            assert(hex_value(bytes[2 * i + 1]) == Some(digit_worth(bytes[2 * i + 1])));
        }
    }
}

proof fn lemma_no_first_non_digit(bytes: Seq<u8>, index: int)
    requires
        0 <= index < bytes.len(),
        forall|i: int| !first_non_digit(bytes, i),
    ensures
        hex_value(bytes[index]) is Some,
    decreases index,
{
    assert forall|i: int| 0 <= i < index implies hex_value(#[trigger] bytes[i]) is Some by {
        lemma_no_first_non_digit(bytes, i);
    }
    assert(!first_non_digit(bytes, index));
}

} // verus!
