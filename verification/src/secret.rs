//! Seeds as they are stored: 32 bytes, written as 64 hexadecimal digits.
use crate::error::SemaphoreError;
use vstd::prelude::*;

verus! {

/// The outside crate's error for a text that is not hexadecimal. Nothing is
/// known of a value of it here.
#[verifier::external_type_specification]
#[verifier::external_body]
pub struct ExFromHexError(hex::FromHexError);

/// The sixteen digits in lower case, in the order of their values.
pub open spec fn lower_digits() -> Seq<char> {
    "0123456789abcdef"@
}

/// The sixteen digits in upper case, in the order of their values.
pub open spec fn upper_digits() -> Seq<char> {
    "0123456789ABCDEF"@
}

/// The value of a hexadecimal digit of either case, or `None` for another character.
pub open spec fn digit_value(c: char) -> Option<int> {
    if lower_digits().contains(c) {
        Some(lower_digits().index_of(c))
    } else if upper_digits().contains(c) {
        Some(upper_digits().index_of(c))
    } else {
        None
    }
}

/// The bytes written out in lower case, two digits each, the high one first.
pub open spec fn lower_hex(bytes: Seq<u8>) -> Seq<char> {
    Seq::new(
        2 * bytes.len(),
        |i: int|
            if i % 2 == 0 {
                lower_digits()[bytes[i / 2] as int / 16]
            } else {
                lower_digits()[bytes[i / 2] as int % 16]
            },
    )
}

/// Whether a text is an even number of hexadecimal digits.
pub open spec fn is_hex_text(text: Seq<char>) -> bool {
    &&& text.len() % 2 == 0
    &&& forall|i: int| 0 <= i < text.len() ==> digit_value(#[trigger] text[i]) is Some
}

/// The bytes that a text of hexadecimal digits stands for.
pub open spec fn hex_bytes(text: Seq<char>) -> Seq<u8> {
    Seq::new(
        text.len() / 2,
        |i: int|
            (16 * digit_value(text[2 * i]).unwrap() + digit_value(text[2 * i + 1]).unwrap()) as u8,
    )
}

/// Each of the sixteen lower-case digits has its place as its value.
pub proof fn lemma_digit_values(nibble: int)
    requires
        0 <= nibble < 16,
    ensures
        lower_digits().len() == 16,
        digit_value(lower_digits()[nibble]) == Some(nibble),
{
    reveal_strlit("0123456789abcdef");
    let digits = lower_digits();
    let c = digits[nibble];
    assert(digits.contains(c));
    let found = digits.index_of(c);
    assert(0 <= found < 16 && digits[found] == c);
}

/// What was written out is read back as it was: a seed's stored text is
/// hexadecimal, and stands for the seed.
pub proof fn lemma_hex_round_trip(bytes: Seq<u8>)
    ensures
        is_hex_text(lower_hex(bytes)),
        lower_hex(bytes).len() == 2 * bytes.len(),
        hex_bytes(lower_hex(bytes)) == bytes,
{
    let text = lower_hex(bytes);
    assert forall|i: int| 0 <= i < text.len() implies digit_value(#[trigger] text[i]) is Some by {
        let b = bytes[i / 2] as int;
        lemma_digit_values(b / 16);
        lemma_digit_values(b % 16);
    }
    assert forall|k: int| 0 <= k < bytes.len() implies hex_bytes(text)[k] == bytes[k] by {
        let b = bytes[k] as int;
        lemma_digit_values(b / 16);
        lemma_digit_values(b % 16);
        assert((2 * k) / 2 == k && (2 * k) % 2 == 0);
        assert((2 * k + 1) / 2 == k && (2 * k + 1) % 2 == 1);
        assert(text[2 * k] == lower_digits()[b / 16]);
        assert(text[2 * k + 1] == lower_digits()[b % 16]);
    }
    assert(hex_bytes(text) =~= bytes);
}

/// Calls `hex::encode`, which writes each byte as two lower-case digits,
/// the high four bits first.
#[verifier::external_body]
fn encode_hex(bytes: &[u8]) -> (r: String)
    ensures
        r@ == lower_hex(bytes@),
{
    hex::encode(bytes)
}

/// Calls `hex::decode`, which takes an even number of digits of either case
/// and gives one byte for each two of them, the first digit being the high
/// four bits; any other text it refuses.
#[verifier::external_body]
fn decode_hex(text: &str) -> (r: Result<Vec<u8>, hex::FromHexError>)
    ensures
        r is Ok <==> is_hex_text(text@),
        r matches Ok(bytes) ==> bytes@ == hex_bytes(text@),
{
    hex::decode(text)
}

/// A seed as it is stored: 64 lower-case hexadecimal digits.
pub fn secret_to_hex(secret: &[u8; 32]) -> (r: String)
    ensures
        r@ == lower_hex(secret@),
{
    encode_hex(secret.as_slice())
}

/// The seed that a stored text stands for. A text that is not exactly 64
/// hexadecimal digits is refused as a malformed document.
pub fn secret_from_hex(text: &str) -> (r: Result<[u8; 32], SemaphoreError>)
    ensures
        r is Ok <==> is_hex_text(text@) && text@.len() == 64,
        r is Err ==> r == Err::<[u8; 32], SemaphoreError>(
            SemaphoreError::MalformedPersistedDocument,
        ),
        r matches Ok(secret) ==> secret@ == hex_bytes(text@),
{
    let bytes = match decode_hex(text) {
        Ok(bytes) => bytes,
        Err(_) => {
            return Err(SemaphoreError::MalformedPersistedDocument);
        },
    };
    if bytes.len() != 32 {
        return Err(SemaphoreError::MalformedPersistedDocument);
    }
    let mut secret = [0u8; 32];
    let mut i: usize = 0;
    while i < 32
        invariant
            i <= 32,
            bytes@.len() == 32,
            forall|j: int| 0 <= j < i ==> secret@[j] == bytes@[j],
        decreases 32 - i,
    {
        secret[i] = bytes[i];
        i = i + 1;
    }
    assert(secret@ =~= bytes@);
    Ok(secret)
}

} // verus!
