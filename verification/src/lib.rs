//! Decoding of raw ledger transactions and the measures and labels derived
//! from their structure.
//!
//! A transaction arrives as hexadecimal text or as bytes. `decode_transaction`
//! and `decoder::decode` turn it into a `transaction::Transaction` or say
//! why they cannot. The encoding is defined in `grammar`, as a function from
//! bytes to a transaction and as a function back; `cursor` and `varint` read
//! its fields. `metrics` measures a transaction, `classify` labels its
//! inputs, witness items and outputs, and `timelock` explains its lock time
//! and sequence numbers.
//!
//! Three modules hold what is proved of the grammar: `bounds` (a decoded
//! transaction is well formed and no longer than its buffer), `locality` (a
//! buffer cut short never decodes, one with a byte added has trailing data)
//! and `roundtrip` (an encoding decodes to the transaction it was written
//! from).

use vstd::prelude::*;
use crate::error::DecodeError;
use crate::text::decode_hex;
use crate::text::decoded_hex;
use crate::text::trim_text;
use crate::text::trimmed;
use crate::transaction::Transaction;
use crate::transaction::TransactionModel;

pub mod bounds;
pub mod classify;
pub mod cursor;
pub mod decimal;
pub mod decoder;
pub mod error;
pub mod grammar;
pub mod locality;
pub mod metrics;
pub mod roundtrip;
pub mod text;
pub mod timelock;
pub mod transaction;
pub mod varint;

verus! {

/// Decodes a transaction from hexadecimal text. White space around the text
/// is ignored.
///
/// The result is `decoded_hex` of the trimmed text: `InvalidHex` when that is
/// not an even number of hexadecimal digits, and otherwise what the bytes
/// decode to. A transaction that comes back is well formed and its sizes
/// can be taken.
pub fn decode_transaction(hex: &str) -> (r: Result<Transaction, DecodeError>)
    ensures
        match r {
            Ok(tx) => decoded_hex(trimmed(hex@)) == Ok::<TransactionModel, DecodeError>(tx@)
                && tx@.well_formed() && tx@.fits_in_memory(),
            Err(e) => decoded_hex(trimmed(hex@)) == Err::<TransactionModel, DecodeError>(e),
        },
{
    decode_hex(trim_text(hex))
}

} // verus!
