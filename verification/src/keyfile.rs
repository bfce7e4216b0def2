//! Keys as text: in hexadecimal, in key files and on the command line.

use crate::bytes::to_array32;
use crate::text::{text_of, trim, trimmed, trimmed_end, trimmed_start, is_white};
use hex::FromHexError;
use vstd::prelude::*;

verus! {

#[verifier::external_type_specification]
#[verifier::external_body]
pub struct ExFromHexError(FromHexError);

/// The hexadecimal digit of a number below sixteen.
pub open spec fn hex_digit(n: nat) -> char {
    if n < 10 {
        (48 + n) as u8 as char
    } else {
        (87 + n) as u8 as char
    }
}

/// Bytes in hexadecimal, two small digits each.
pub open spec fn hex_of(bytes: Seq<u8>) -> Seq<char> {
    Seq::new(
        2 * bytes.len(),
        |i: int|
            if i % 2 == 0 {
                hex_digit(bytes[i / 2] as nat / 16)
            } else {
                hex_digit(bytes[i / 2] as nat % 16)
            },
    )
}

/// What a hexadecimal digit, small or capital, stands for.
pub open spec fn hex_value(c: char) -> Option<nat> {
    let n = c as u32;
    if 48 <= n <= 57 {
        Some((n - 48) as nat)
    } else if 97 <= n <= 102 {
        Some((n - 87) as nat)
    } else if 65 <= n <= 70 {
        Some((n - 55) as nat)
    } else {
        None
    }
}

/// Whether a text is bytes in hexadecimal.
pub open spec fn is_hex(s: Seq<char>) -> bool {
    s.len() % 2 == 0 && forall|i: int| 0 <= i < s.len() ==> hex_value(#[trigger] s[i]) is Some
}

/// The bytes that a text in hexadecimal stands for.
pub open spec fn unhex(s: Seq<char>) -> Seq<u8> {
    Seq::new(
        s.len() / 2,
        |i: int| (16 * hex_value(s[2 * i])->0 + hex_value(s[2 * i + 1])->0) as u8,
    )
}

/// The text of an error in hexadecimal.
pub uninterp spec fn hex_error_text(e: FromHexError) -> Seq<char>;

/// The words in which a text is refused that is not hexadecimal.
pub uninterp spec fn hex_refusal(text: Seq<char>) -> Seq<char>;

/// `hex::encode`: two small digits for each byte.
#[verifier::external_body]
fn hex_encode(bytes: &[u8]) -> (text: String)
    ensures
        text@ == hex_of(bytes@),
{
    hex::encode(bytes)
}

/// `hex::decode`: the bytes, for an even number of hexadecimal digits, small
/// or capital; an error for any other text, whose words depend on the text
/// alone.
#[verifier::external_body]
fn hex_decode(text: &str) -> (r: Result<Vec<u8>, FromHexError>)
    ensures
        r is Ok <==> is_hex(text@),
        r matches Ok(bytes) ==> bytes@ == unhex(text@),
        r matches Err(e) ==> hex_error_text(e) == hex_refusal(text@),
{
    hex::decode(text)
}

/// `to_string` on `hex::FromHexError`: its text, which depends on the error
/// alone.
#[verifier::external_body]
fn show_hex_error(e: &FromHexError) -> (text: String)
    ensures
        text@ == hex_error_text(*e),
{
    e.to_string()
}

/// Bytes written in hexadecimal are read back.
pub proof fn hex_reads_back(bytes: Seq<u8>)
    ensures
        is_hex(hex_of(bytes)),
        unhex(hex_of(bytes)) == bytes,
{
    let s = hex_of(bytes);
    assert forall|i: int| 0 <= i < s.len() implies hex_value(#[trigger] s[i]) == Some(
        if i % 2 == 0 {
            bytes[i / 2] as nat / 16
        } else {
            bytes[i / 2] as nat % 16
        },
    ) by {}
    assert forall|i: int| 0 <= i < bytes.len() implies unhex(s)[i] == bytes[i] by {
        assert(hex_value(s[2 * i]) == Some(bytes[i] as nat / 16));
        assert(hex_value(s[2 * i + 1]) == Some(bytes[i] as nat % 16));
    }
    assert(unhex(s) =~= bytes);
}

/// The bytes that a text in hexadecimal stands for; `None` for any other text.
pub fn decode_hex(text: &str) -> (r: Option<Vec<u8>>)
    ensures
        match r {
            Some(bytes) => is_hex(text@) && bytes@ == unhex(text@),
            None => !is_hex(text@),
        },
{
    match hex_decode(text) {
        Ok(bytes) => Some(bytes),
        Err(_) => None,
    }
}

/// Bytes in hexadecimal.
pub fn encode_hex(bytes: &[u8]) -> (text: String)
    ensures
        text@ == hex_of(bytes@),
{
    hex_encode(bytes)
}

/// The key of thirty-two bytes that a text in hexadecimal stands for.
pub open spec fn hex_key(s: Seq<char>) -> Option<Seq<u8>> {
    if is_hex(s) && s.len() == 64 {
        Some(unhex(s))
    } else {
        None
    }
}

/// Reads a key of thirty-two bytes in hexadecimal; `None` for any other text.
pub fn parse_hex_key(text: &str) -> (r: Option<[u8; 32]>)
    ensures
        match r {
            Some(key) => hex_key(text@) == Some(key@),
            None => hex_key(text@) is None,
        },
{
    match decode_hex(text) {
        Some(bytes) => {
            if bytes.len() == 32 {
                Some(to_array32(bytes.as_slice()))
            } else {
                None
            }
        },
        None => None,
    }
}

/// Reads the key that an authority publishes, with white space around it.
pub fn parse_published_key(body: &str) -> (r: Option<[u8; 32]>)
    ensures
        match r {
            Some(key) => hex_key(trimmed(body@)) == Some(key@),
            None => hex_key(trimmed(body@)) is None,
        },
{
    let text: String = trim(body);
    parse_hex_key(text.as_str())
}

/// Why a file holds no key.
pub enum KeyFileError {
    /// It is not hexadecimal.
    BadHex(FromHexError),
    /// It is not thirty-two bytes long.
    WrongLength,
}

impl KeyFileError {
    /// The error in words, of a file with a secret key.
    pub fn message(&self) -> (text: String)
        ensures
            match *self {
                KeyFileError::BadHex(e) => text@ == "bad hex: "@ + hex_error_text(e),
                KeyFileError::WrongLength => text@
                    == "secret key file must be 64 hex chars (32 bytes)"@,
            },
    {
        match self {
            KeyFileError::BadHex(e) => "bad hex: ".to_owned().concat(show_hex_error(e).as_str()),
            KeyFileError::WrongLength =>
                "secret key file must be 64 hex chars (32 bytes)".to_owned(),
        }
    }

    /// The error in words, of a file with the seed of a signing key.
    pub fn seed_message(&self) -> (text: String)
        ensures
            match *self {
                KeyFileError::BadHex(e) => text@ == "bad hex: "@ + hex_error_text(e),
                KeyFileError::WrongLength => text@
                    == "authority key must be 32 bytes (or 64 hex chars)"@,
            },
    {
        match self {
            KeyFileError::BadHex(e) => "bad hex: ".to_owned().concat(show_hex_error(e).as_str()),
            KeyFileError::WrongLength =>
                "authority key must be 32 bytes (or 64 hex chars)".to_owned(),
        }
    }
}

/// The contents of a key file: the secret key in hexadecimal, on a line.
pub open spec fn key_file_of(sk: Seq<u8>) -> Seq<char> {
    hex_of(sk).push('\n')
}

/// Reads the contents of a key file.
pub fn read_key_file(contents: &str) -> (r: Result<[u8; 32], KeyFileError>)
    ensures
        match r {
            Ok(key) => hex_key(trimmed(contents@)) == Some(key@),
            Err(KeyFileError::BadHex(e)) => !is_hex(trimmed(contents@)) && hex_error_text(e)
                == hex_refusal(trimmed(contents@)),
            Err(KeyFileError::WrongLength) => is_hex(trimmed(contents@)) && trimmed(
                contents@,
            ).len() != 64,
        },
{
    let text: String = trim(contents);
    match hex_decode(text.as_str()) {
        Ok(bytes) => {
            if bytes.len() == 32 {
                Ok(to_array32(bytes.as_slice()))
            } else {
                Err(KeyFileError::WrongLength)
            }
        },
        Err(e) => Err(KeyFileError::BadHex(e)),
    }
}

/// The contents of a key file for a secret key.
pub fn write_key_file(sk: &[u8; 32]) -> (contents: String)
    ensures
        contents@ == key_file_of(sk@),
{
    let mut contents: String = hex_encode(sk.as_slice());
    contents.push('\n');
    contents
}

/// A key that was written to a key file is read from it.
pub proof fn key_file_reads_back(sk: Seq<u8>)
    requires
        sk.len() == 32,
    ensures
        hex_key(trimmed(key_file_of(sk))) == Some(sk),
{
    let digits = hex_of(sk);
    let file = key_file_of(sk);
    hex_reads_back(sk);
    assert(hex_value(digits[0]) is Some);
    assert(hex_value(digits[63]) is Some);
    assert(file[0] == digits[0]);
    assert(!is_white(file[0]));
    assert(trimmed_start(file) == file);
    assert(file.last() == '\n');
    assert(is_white('\n'));
    assert(file.drop_last() =~= digits);
    assert(digits.last() == digits[63]);
    assert(!is_white(digits.last()));
    assert(trimmed_end(digits) == digits);
}

/// Whether a byte is a hexadecimal digit or white space of ASCII.
pub open spec fn hex_text_byte(b: u8) -> bool {
    ||| 48 <= b <= 57
    ||| 97 <= b <= 102
    ||| 65 <= b <= 70
    ||| b == 9
    ||| b == 10
    ||| b == 12
    ||| b == 13
    ||| b == 32
}

/// Whether bytes are text of hexadecimal digits and white space.
pub open spec fn is_hex_text(raw: Seq<u8>) -> bool {
    forall|i: int| 0 <= i < raw.len() ==> hex_text_byte(#[trigger] raw[i])
}

/// Bytes of ASCII as text.
pub open spec fn ascii_text(raw: Seq<u8>) -> Seq<char> {
    raw.map_values(|b: u8| b as char)
}

/// Reads the seed of a signing key: from thirty-two bytes as they are, or from
/// text in hexadecimal.
pub fn read_ed25519_seed(raw: &[u8]) -> (r: Result<[u8; 32], KeyFileError>)
    ensures
        raw@.len() == 32 ==> (r matches Ok(key) && key@ == raw@),
        raw@.len() != 32 ==> if is_hex_text(raw@) {
            match r {
                Ok(key) => hex_key(trimmed(ascii_text(raw@))) == Some(key@),
                Err(KeyFileError::BadHex(e)) => !is_hex(trimmed(ascii_text(raw@)))
                    && hex_error_text(e) == hex_refusal(trimmed(ascii_text(raw@))),
                Err(KeyFileError::WrongLength) => is_hex(trimmed(ascii_text(raw@))) && trimmed(
                    ascii_text(raw@),
                ).len() != 64,
            }
        } else {
            r matches Err(e) && e is WrongLength
        },
{
    if raw.len() == 32 {
        return Ok(to_array32(raw));
    }
    let mut chars: Vec<char> = Vec::with_capacity(raw.len());
    let mut i: usize = 0;
    while i < raw.len()
        invariant
            i <= raw@.len(),
            raw@.len() != 32,
            chars@.len() == i,
            forall|j: int| 0 <= j < i ==> hex_text_byte(#[trigger] raw@[j]),
            forall|j: int| 0 <= j < i ==> chars@[j] == raw@[j] as char,
        decreases raw@.len() - i,
    {
        let b: u8 = raw[i];
        let texty: bool = (48 <= b && b <= 57) || (97 <= b && b <= 102) || (65 <= b && b <= 70) || b
            == 9 || b == 10 || b == 12 || b == 13 || b == 32;
        if !texty {
            assert(!hex_text_byte(raw@[i as int]));
            return Err(KeyFileError::WrongLength);
        }
        chars.push(b as char);
        i = i + 1;
    }
    let text: String = text_of(&chars, 0, chars.len());
    assert(text@ =~= ascii_text(raw@));
    read_key_file(text.as_str())
}

/// A key that was written to a file is the key that is read from it, and what is
/// written is one line: its digits, and a newline.
pub proof fn a_written_key_is_read(
    sk: &[u8; 32],
    contents: String,
    file: &str,
    r: Result<[u8; 32], KeyFileError>,
)
    requires
        call_ensures(write_key_file, (sk,), contents),
        file@ == contents@,
        call_ensures(read_key_file, (file,), r),
    ensures
        contents@.len() == 65,
        contents@[64] == '\n',
        r is Ok,
        r->Ok_0@ == sk@,
{
    key_file_reads_back(sk@);
    hex_reads_back(sk@);
}

/// A key is read from sixty-four hexadecimal digits, two to a byte, the first of
/// them worth sixteen times the second, and from nothing else.
pub proof fn a_key_is_sixty_four_digits(text: &str, r: Option<[u8; 32]>)
    requires
        call_ensures(parse_hex_key, (text,), r),
    ensures
        r is Some <==> text@.len() == 64 && forall|i: int|
            0 <= i < 64 ==> hex_value(#[trigger] text@[i]) is Some,
        r matches Some(key) ==> forall|i: int|
            0 <= i < 32 ==> #[trigger] key@[i] == 16 * hex_value(text@[2 * i])->0 + hex_value(
                text@[2 * i + 1],
            )->0,
{
    if let Some(key) = r {
        assert(is_hex(text@) && text@.len() == 64);
        assert(key@ == unhex(text@));
        assert forall|i: int| 0 <= i < 32 implies #[trigger] key@[i] == 16 * hex_value(
            text@[2 * i],
        )->0 + hex_value(text@[2 * i + 1])->0 by {
            assert(hex_value(text@[2 * i]) is Some);
            assert(hex_value(text@[2 * i + 1]) is Some);
            assert(unhex(text@)[i] == key@[i]);
        }
    } else {
        assert(!is_hex(text@) || text@.len() != 64);
    }
}

/// Hexadecimal digits count from zero to nine and from ten to fifteen, in small
/// letters or capitals, and nothing else is one.
pub proof fn digits_count_to_fifteen(c: char)
    ensures
        '0' <= c && c <= '9' ==> hex_value(c) == Some((c as u32 - '0' as u32) as nat),
        'a' <= c && c <= 'f' ==> hex_value(c) == Some((c as u32 - 'a' as u32 + 10) as nat),
        'A' <= c && c <= 'F' ==> hex_value(c) == Some((c as u32 - 'A' as u32 + 10) as nat),
        hex_value(c) is Some ==> '0' <= c && c <= '9' || 'a' <= c && c <= 'f' || 'A' <= c && c
            <= 'F',
{
}

/// The key that an authority publishes is read with white space around it or
/// without.
pub proof fn a_published_key_is_read_bare(
    body: &str,
    bare: &str,
    r: Option<[u8; 32]>,
    of_bare: Option<[u8; 32]>,
)
    requires
        bare@ == trimmed(body@),
        call_ensures(parse_published_key, (body,), r),
        call_ensures(parse_hex_key, (bare,), of_bare),
    ensures
        r is Some <==> of_bare is Some,
        r is Some ==> r->0@ == of_bare->0@,
{
}

/// A key file is refused for what is wrong with it: text that is not
/// hexadecimal, or not sixty-four digits of it.
pub proof fn a_key_file_is_refused_for_its_fault(
    contents: &str,
    r: Result<[u8; 32], KeyFileError>,
)
    requires
        call_ensures(read_key_file, (contents,), r),
    ensures
        ({
            let text = trimmed(contents@);
            &&& r is Ok <==> is_hex(text) && text.len() == 64
            &&& r is Err && r->Err_0 is BadHex <==> !is_hex(text)
            &&& r is Ok ==> r->Ok_0@ == unhex(text)
        }),
{
}

/// A seed of thirty-two bytes is taken as it is, and any other file as text with
/// a key, where it is such text: hexadecimal digits, and tabs, newlines, form
/// feeds, carriage returns and spaces.
pub proof fn a_seed_is_bytes_or_digits(raw: &[u8], r: Result<[u8; 32], KeyFileError>)
    requires
        call_ensures(read_ed25519_seed, (raw,), r),
    ensures
        raw@.len() == 32 ==> r is Ok && r->Ok_0@ == raw@,
        raw@.len() != 32 ==> {
            let text = trimmed(Seq::new(raw@.len(), |i: int| raw@[i] as char));
            let texty = forall|i: int|
                0 <= i < raw@.len() ==> {
                    ||| 48 <= #[trigger] raw@[i] <= 57
                    ||| 97 <= raw@[i] <= 102
                    ||| 65 <= raw@[i] <= 70
                    ||| 9 <= raw@[i] <= 10
                    ||| 12 <= raw@[i] <= 13
                    ||| raw@[i] == 32
                };
            &&& !texty ==> r is Err && r->Err_0 is WrongLength
            &&& texty && !is_hex(text) ==> r is Err && r->Err_0 is BadHex
            &&& texty && is_hex(text) && text.len() != 64 ==> r is Err && r->Err_0 is WrongLength
            &&& texty && is_hex(text) && text.len() == 64 ==> r is Ok && r->Ok_0@ == unhex(text)
        },
{
    assert(ascii_text(raw@) =~= Seq::new(raw@.len(), |i: int| raw@[i] as char));
}

/// Bytes in hexadecimal are read back, and what is not hexadecimal is not read.
pub proof fn hexadecimal_is_read_back(
    bytes: &[u8],
    text: String,
    given: &str,
    r: Option<Vec<u8>>,
)
    requires
        call_ensures(encode_hex, (bytes,), text),
        call_ensures(decode_hex, (given,), r),
    ensures
        text@.len() == 2 * bytes@.len(),
        given@ == text@ ==> r is Some && r->0@ == bytes@,
        r is Some <==> is_hex(given@),
{
    hex_reads_back(bytes@);
}

/// The two faults of a key file are said in different words.
pub proof fn key_file_faults_are_told_apart(e: &KeyFileError, said: String, seed: String)
    requires
        call_ensures(KeyFileError::message, (e,), said),
        call_ensures(KeyFileError::seed_message, (e,), seed),
    ensures
        *e matches KeyFileError::BadHex(why) ==> said@ == "bad hex: "@ + hex_error_text(why)
            && seed@ == said@,
        *e is WrongLength ==> said@ == "secret key file must be 64 hex chars (32 bytes)"@ && seed@
            == "authority key must be 32 bytes (or 64 hex chars)"@,
{
}

} // verus!
