//! Hexadecimal text, by way of the `hex` crate.
use vstd::prelude::*;
use vstd::string::*;

verus! {

/// The lower-case digit of a value below sixteen.
pub open spec fn hex_digit(v: int) -> char {
    if v < 10 {
        (v + '0' as int) as char
    } else {
        (v - 10 + 'a' as int) as char
    }
}

/// Two lower-case digits for each byte, the high half first.
pub open spec fn hex_text(data: Seq<u8>) -> Seq<char> {
    Seq::new(
        2 * data.len(),
        |i: int| hex_digit(if i % 2 == 0 { data[i / 2] as int / 16 } else { data[i / 2] as int % 16 }),
    )
}

/// Whether a byte is a digit of either case.
pub open spec fn is_hex_digit(b: u8) -> bool {
    ||| 48 <= b <= 57
    ||| 65 <= b <= 70
    ||| 97 <= b <= 102
}

/// The value of a digit.
pub open spec fn hex_digit_value(b: u8) -> int {
    if b <= 57 {
        b - 48
    } else if b <= 70 {
        b - 55
    } else {
        b - 87
    }
}

/// Whether a text is made of digit pairs.
pub open spec fn is_hex(text: Seq<u8>) -> bool {
    &&& text.len() % 2 == 0
    &&& forall|i: int| 0 <= i < text.len() ==> is_hex_digit(#[trigger] text[i])
}

/// The bytes that digit pairs denote.
pub open spec fn hex_bytes(text: Seq<u8>) -> Seq<u8> {
    Seq::new(
        text.len() / 2,
        |i: int| (hex_digit_value(text[2 * i]) * 16 + hex_digit_value(text[2 * i + 1])) as u8,
    )
}

/// Why a text is not hexadecimal.
#[derive(Clone, Copy, Debug, PartialEq, Eq)]
pub enum HexError {
    InvalidHexCharacter { c: char, index: usize },
    OddLength,
    InvalidStringLength,
}

/// Renders bytes as lower-case hexadecimal.
///
/// Calls `hex::encode`. The contract says that each byte becomes its two
/// lower-case digits, in order.
#[verifier::external_body]
pub(crate) fn hex_encode(data: &[u8]) -> (r: String)
    ensures
        r@ == hex_text(data@),
{
    hex::encode(data)
}

/// Reads hexadecimal text of either case.
///
/// Calls `hex::decode`. The contract says that it succeeds exactly on an even
/// number of digits, with the bytes they denote; that an odd number of bytes is
/// reported as such, whatever they are; and that otherwise the first byte that
/// is no digit is reported with its position.
#[verifier::external_body]
pub(crate) fn hex_decode(text: &str) -> (r: Result<Vec<u8>, HexError>)
    ensures
        match r {
            Ok(b) => is_hex(text.spec_bytes()) && b@ == hex_bytes(text.spec_bytes()),
            Err(HexError::OddLength) => text.spec_bytes().len() % 2 == 1,
            Err(HexError::InvalidHexCharacter { c, index }) => {
                let t = text.spec_bytes();
                &&& t.len() % 2 == 0
                &&& index < t.len()
                &&& !is_hex_digit(t[index as int])
                &&& c == t[index as int] as char
                &&& forall|j: int| 0 <= j < index ==> is_hex_digit(#[trigger] t[j])
            },
            Err(HexError::InvalidStringLength) => false,
        },
{
    match hex::decode(text) {
        Ok(b) => Ok(b),
        Err(hex::FromHexError::InvalidHexCharacter { c, index }) => Err(
            HexError::InvalidHexCharacter { c, index },
        ),
        Err(hex::FromHexError::OddLength) => Err(HexError::OddLength),
        Err(hex::FromHexError::InvalidStringLength) => Err(HexError::InvalidStringLength),
    }
}

/// Whether the byte at `i` is the first that is no digit.
pub open spec fn first_bad_digit(text: Seq<u8>, i: int) -> bool {
    &&& 0 <= i < text.len()
    &&& !is_hex_digit(text[i])
    &&& forall|j: int| 0 <= j < i ==> is_hex_digit(#[trigger] text[j])
}

/// The bytes that a text denotes, or why it denotes none.
pub open spec fn hex_decoded(text: Seq<u8>) -> Result<Seq<u8>, HexError> {
    if is_hex(text) {
        Ok(hex_bytes(text))
    } else if text.len() % 2 == 1 {
        Err(HexError::OddLength)
    } else {
        let i = choose|i: int| first_bad_digit(text, i);
        Err(HexError::InvalidHexCharacter { c: text[i] as char, index: i as usize })
    }
}

/// Reads hexadecimal text of either case.
pub fn decode_hex(text: &str) -> (r: Result<Vec<u8>, HexError>)
    ensures
        match r {
            Ok(b) => hex_decoded(text.spec_bytes()) == Ok::<Seq<u8>, HexError>(b@),
            Err(e) => hex_decoded(text.spec_bytes()) == Err::<Seq<u8>, HexError>(e),
        },
{
    let r = hex_decode(text);
    proof {
        let t = text.spec_bytes();
        if let Err(HexError::InvalidHexCharacter { c, index }) = r {
            assert(first_bad_digit(t, index as int));
            let i = choose|i: int| first_bad_digit(t, i);
            if i < index {
                assert(is_hex_digit(t[i]));
            } else if index < i {
                assert(is_hex_digit(t[index as int]));
            }
        }
    }
    r
}

/// Every digit of a byte in hexadecimal is a digit, and no other character.
pub proof fn lemma_hex_text(data: Seq<u8>)
    ensures
        hex_text(data).len() == 2 * data.len(),
        forall|i: int|
            0 <= i < hex_text(data).len() ==> ('0' <= #[trigger] hex_text(data)[i] <= '9' || 'a'
                <= hex_text(data)[i] <= 'f'),
{
}

/// What is rendered in hexadecimal is read back.
pub proof fn law_hex_is_read_back(data: Seq<u8>)
    ensures
        hex_decoded(vstd::utf8::encode_utf8(hex_text(data))) == Ok::<Seq<u8>, HexError>(data),
{
    let t = hex_text(data);
    lemma_hex_text(data);
    assert(vstd::utf8::is_ascii_chars(t)) by {
        assert forall|i: int| 0 <= i < t.len() implies 0 <= #[trigger] t[i] as int && (t[i] as int)
            < 128 by {}
    }
    vstd::utf8::is_ascii_chars_encode_utf8(t);
    let b = vstd::utf8::encode_utf8(t);
    assert forall|i: int| 0 <= i < b.len() implies is_hex_digit(#[trigger] b[i]) by {
        assert(b[i] == t[i] as u8);
    }
    assert(is_hex(b));
    assert(hex_bytes(b) =~= data) by {
        assert forall|i: int| 0 <= i < data.len() implies hex_bytes(b)[i] == data[i] by {
            let hi = data[i] as int / 16;
            let lo = data[i] as int % 16;
            assert(t[2 * i] == hex_digit(hi));
            assert(t[2 * i + 1] == hex_digit(lo));
            assert(b[2 * i] == t[2 * i] as u8);
            assert(b[2 * i + 1] == t[2 * i + 1] as u8);
            assert(hex_digit_value(b[2 * i]) == hi);
            assert(hex_digit_value(b[2 * i + 1]) == lo);
        }
    }
}

/// The quoted form of a character in diagnostics.
pub uninterp spec fn quoted_char(c: char) -> Seq<char>;

/// Renders a character in quotes, with escapes.
///
/// Calls the `Debug` formatting of `char` in std; the contract names its result.
#[verifier::external_body]
fn quote_char(c: char) -> (r: String)
    ensures
        r@ == quoted_char(c),
{
    format!("{:?}", c)
}

impl HexError {
    /// The message of an error.
    pub open spec fn text(self) -> Seq<char> {
        match self {
            HexError::InvalidHexCharacter { c, index } => "Invalid character "@ + quoted_char(c)
                + " at position "@ + crate::text::decimal(index as nat),
            HexError::OddLength => "Odd number of digits"@,
            HexError::InvalidStringLength => "Invalid string length"@,
        }
    }

    pub fn message(&self) -> (r: String)
        ensures
            r@ == self.text(),
    {
        match self {
            HexError::InvalidHexCharacter { c, index } => {
                let mut s = String::from_str("Invalid character ");
                let q = quote_char(*c);
                s.append(q.as_str());
                s.append(" at position ");
                crate::text::push_decimal(&mut s, *index as u64);
                s
            },
            HexError::OddLength => String::from_str("Odd number of digits"),
            HexError::InvalidStringLength => String::from_str("Invalid string length"),
        }
    }
}

} // verus!
