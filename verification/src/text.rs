//! From hexadecimal text to a transaction: the text is trimmed, its digits
//! are turned into bytes, and the bytes are decoded.

use vstd::prelude::*;
use vstd::utf8::encode_utf8;
use crate::decoder::decode;
use crate::error::DecodeError;
use crate::grammar::decoded;
use crate::transaction::Transaction;
use crate::transaction::TransactionModel;

verus! {

/// The error of the `hex` crate. Nothing of it is read: every such error
/// becomes `DecodeError::InvalidHex`.
#[verifier::external_type_specification]
#[verifier::external_body]
pub struct ExFromHexError(::hex::FromHexError);

/// True for the ASCII codes of `0`-`9`, `A`-`F` and `a`-`f`.
pub open spec fn is_hex_digit(b: u8) -> bool {
    (0x30 <= b <= 0x39) || (0x41 <= b <= 0x46) || (0x61 <= b <= 0x66)
}

/// The value of a hexadecimal digit, upper or lower case.
pub open spec fn hex_digit_value(b: u8) -> int {
    if 0x30 <= b <= 0x39 {
        b - 0x30
    } else if 0x41 <= b <= 0x46 {
        b - 0x41 + 10
    } else {
        b - 0x61 + 10
    }
}

/// True when `text` is an even number of hexadecimal digits.
pub open spec fn is_hex(text: Seq<u8>) -> bool {
    text.len() % 2 == 0 && forall|i: int| 0 <= i < text.len() ==> is_hex_digit(#[trigger] text[i])
}

/// The bytes that the digit pairs of `text` stand for, the first digit of a
/// pair being the high half.
pub open spec fn hex_bytes(text: Seq<u8>) -> Seq<u8> {
    Seq::new(
        text.len() / 2,
        |i: int| (16 * hex_digit_value(text[2 * i]) + hex_digit_value(text[2 * i + 1])) as u8,
    )
}

/// What `str::trim` returns for a text: the text without the white space at
/// its two ends.
pub uninterp spec fn trimmed(text: Seq<char>) -> Seq<char>;

/// What a text decodes to when it is read as hexadecimal digits. The text is
/// taken by its UTF-8 bytes, so anything but a digit in it, a blank
/// included, makes it invalid.
pub open spec fn decoded_hex(text: Seq<char>) -> Result<TransactionModel, DecodeError> {
    let digits = encode_utf8(text);
    if is_hex(digits) {
        decoded(hex_bytes(digits))
    } else {
        Err(DecodeError::InvalidHex)
    }
}

/// `hex::decode` of the `hex` crate, on the bytes of a text. It succeeds
/// exactly on an even number of hexadecimal digits of either case, and then
/// returns one byte for each pair of digits, the first digit being the high
/// half. An odd length or any other byte gives an error.
#[verifier::external_body]
fn hex_decode(text: &[u8]) -> (r: Result<Vec<u8>, ::hex::FromHexError>)
    ensures
        r is Ok <==> is_hex(text@),
        r matches Ok(bytes) ==> bytes@ == hex_bytes(text@),
{
    ::hex::decode(text)
}

/// `str::trim` of the standard library, which returns the text without the
/// white space at its two ends. The contract gives that result its name and
/// says no more of it.
#[verifier::external_body]
pub(crate) fn trim_text(text: &str) -> (r: &str)
    ensures
        r@ == trimmed(text@),
{
    text.trim()
}

/// Decodes a transaction from hexadecimal text that has no white space
/// around it.
///
/// Text that is not an even number of hexadecimal digits gives `InvalidHex`.
/// Otherwise the result is that of decoding the bytes that the digits stand
/// for.
pub fn decode_hex(text: &str) -> (r: Result<Transaction, DecodeError>)
    ensures
        match r {
            Ok(tx) => decoded_hex(text@) == Ok::<TransactionModel, DecodeError>(tx@)
                && tx@.well_formed() && tx@.fits_in_memory(),
            Err(e) => decoded_hex(text@) == Err::<TransactionModel, DecodeError>(e),
        },
{
    let digits = text.as_bytes();
    match hex_decode(digits) {
        Err(_) => Err(DecodeError::InvalidHex),
        Ok(bytes) => decode(bytes.as_slice()),
    }
}

} // verus!
