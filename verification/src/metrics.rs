//! Size, weight and virtual size of a transaction, as lengths of its
//! encoding.

use vstd::prelude::*;
use crate::bounds::lemma_widths;
use crate::grammar::base_bytes;
use crate::grammar::encoded;
use crate::grammar::input_bytes;
use crate::grammar::inputs_bytes;
use crate::grammar::items_bytes;
use crate::grammar::output_bytes;
use crate::grammar::outputs_bytes;
use crate::grammar::prefixed_bytes;
use crate::grammar::stack_bytes;
use crate::grammar::unsigned32;
use crate::grammar::witnesses_bytes;
use crate::transaction::inputs_model;
use crate::transaction::outputs_model;
use crate::transaction::stack_model;
use crate::transaction::Transaction;
use crate::transaction::TransactionModel;
use crate::transaction::TxIn;
use crate::transaction::TxInModel;
use crate::transaction::TxOut;
use crate::transaction::TxOutModel;
use crate::varint::compact_len;
use crate::varint::compact_size;

verus! {

impl TransactionModel {
    /// The length of the encoding without marker and witness section.
    pub open spec fn base_size(self) -> nat {
        base_bytes(self).len()
    }

    /// The length of the encoding: with marker and witness section when the
    /// transaction has the marker, the base size when it has not.
    pub open spec fn total_size(self) -> nat {
        encoded(self).len()
    }

    /// Three times the base size plus the total size, in weight units.
    pub open spec fn weight(self) -> nat {
        3 * self.base_size() + self.total_size()
    }

    /// A quarter of the weight, rounded up, in virtual bytes.
    pub open spec fn virtual_size(self) -> nat {
        (self.weight() + 3) / 4
    }

    /// True when the encoding is short enough for a buffer in memory. It
    /// holds of every decoded transaction.
    pub open spec fn fits_in_memory(self) -> bool {
        self.total_size() <= usize::MAX
    }
}

/// The sum of the values of a run of outputs.
pub open spec fn values_sum(outputs: Seq<TxOutModel>) -> nat
    decreases outputs.len(),
{
    if outputs.len() == 0 {
        0
    } else {
        values_sum(outputs.drop_last()) + outputs.last().value as nat
    }
}

/// How the four measures relate: the weight is three times the base size
/// plus the total size; the virtual size is the least number of virtual
/// bytes whose fourfold reaches the weight; the base size never exceeds the
/// total size, and without the witness marker the two are equal.
pub proof fn lemma_size_relations(tx: TransactionModel)
    ensures
        tx.weight() == 3 * tx.base_size() + tx.total_size(),
        4 * tx.virtual_size() >= tx.weight() > 4 * (tx.virtual_size() - 1),
        tx.base_size() <= tx.total_size(),
        tx.virtual_size() <= tx.total_size(),
        !tx.has_witness ==> tx.total_size() == tx.base_size(),
        !tx.has_witness ==> tx.virtual_size() == tx.base_size(),
        tx.has_witness ==> tx.total_size() == tx.base_size() + 2 + witnesses_bytes(
            tx.inputs,
        ).len(),
{
}

/// The encoding of the first `i + 1` inputs is that of the first `i` followed
/// by that of the next, and is no longer than the encoding of all.
proof fn lemma_inputs_bytes_take(all: Seq<TxInModel>, i: int)
    requires
        0 <= i < all.len(),
    ensures
        inputs_bytes(all.take(i + 1)) == inputs_bytes(all.take(i)) + input_bytes(all[i]),
        inputs_bytes(all.take(i + 1)).len() <= inputs_bytes(all).len(),
    decreases all.len() - i,
{
    assert(all.take(i + 1).drop_last() =~= all.take(i));
    if i + 1 < all.len() {
        lemma_inputs_bytes_take(all, i + 1);
    } else {
        assert(all.take(i + 1) =~= all);
    }
}

/// The encoding of the first `i + 1` outputs is that of the first `i` followed
/// by that of the next, and is no longer than the encoding of all.
proof fn lemma_outputs_bytes_take(all: Seq<TxOutModel>, i: int)
    requires
        0 <= i < all.len(),
    ensures
        outputs_bytes(all.take(i + 1)) == outputs_bytes(all.take(i)) + output_bytes(all[i]),
        outputs_bytes(all.take(i + 1)).len() <= outputs_bytes(all).len(),
    decreases all.len() - i,
{
    assert(all.take(i + 1).drop_last() =~= all.take(i));
    if i + 1 < all.len() {
        lemma_outputs_bytes_take(all, i + 1);
    } else {
        assert(all.take(i + 1) =~= all);
    }
}

/// The encoding of the first `i + 1` witness items is that of the first `i` followed
/// by that of the next, and is no longer than the encoding of all.
proof fn lemma_items_bytes_take(all: Seq<Seq<u8>>, i: int)
    requires
        0 <= i < all.len(),
    ensures
        items_bytes(all.take(i + 1)) == items_bytes(all.take(i)) + prefixed_bytes(all[i]),
        items_bytes(all.take(i + 1)).len() <= items_bytes(all).len(),
    decreases all.len() - i,
{
    assert(all.take(i + 1).drop_last() =~= all.take(i));
    if i + 1 < all.len() {
        lemma_items_bytes_take(all, i + 1);
    } else {
        assert(all.take(i + 1) =~= all);
    }
}

/// The encoding of the first `i + 1` witness stacks is that of the first `i` followed
/// by that of the next, and is no longer than the encoding of all.
proof fn lemma_witnesses_bytes_take(all: Seq<TxInModel>, i: int)
    requires
        0 <= i < all.len(),
    ensures
        witnesses_bytes(all.take(i + 1)) == witnesses_bytes(all.take(i)) + stack_bytes(
            all[i].witness,
        ),
        witnesses_bytes(all.take(i + 1)).len() <= witnesses_bytes(all).len(),
    decreases all.len() - i,
{
    assert(all.take(i + 1).drop_last() =~= all.take(i));
    if i + 1 < all.len() {
        lemma_witnesses_bytes_take(all, i + 1);
    } else {
        assert(all.take(i + 1) =~= all);
    }
}

/// `Some(n)` when the length `len` is `n`, `None` when it is too large for a
/// `usize`.
pub open spec fn measured(size: Option<usize>, len: nat) -> bool {
    match size {
        Some(n) => n == len,
        None => len > usize::MAX,
    }
}

/// The length of a byte string behind its compact length.
fn prefixed_size(body: &Vec<u8>) -> (size: Option<usize>)
    ensures
        measured(size, prefixed_bytes(body@).len()),
{
    proof {
        lemma_widths(body@.len() as int);
    }
    compact_size(body.len() as u64).checked_add(body.len())
}

/// The length of an input's encoding, its witness left out.
fn input_size(input: &TxIn) -> (size: Option<usize>)
    ensures
        measured(size, input_bytes(input@).len()),
{
    proof {
        lemma_widths(input.previous_output.previous_output_index as int);
        lemma_widths(input.sequence as int);
    }
    match prefixed_size(&input.script_sig) {
        Some(script) => script.checked_add(40),
        None => None,
    }
}

/// The length of the inputs' encoding, their witnesses left out.
fn inputs_size(inputs: &Vec<TxIn>) -> (size: Option<usize>)
    ensures
        measured(size, inputs_bytes(inputs_model(inputs@)).len()),
{
    let ghost all = inputs_model(inputs@);
    let mut size: usize = 0;
    let mut i: usize = 0;
    while i < inputs.len()
        invariant
            i <= inputs.len(),
            all == inputs_model(inputs@),
            size == inputs_bytes(all.take(i as int)).len(),
        decreases inputs.len() - i,
    {
        proof {
            lemma_inputs_bytes_take(all, i as int);
        }
        let next = match input_size(&inputs[i]) {
            Some(one) => size.checked_add(one),
            None => None,
        };
        size = match next {
            Some(n) => n,
            None => { return None; },
        };
        i = i + 1;
    }
    proof {
        assert(all.take(i as int) =~= all);
    }
    Some(size)
}

/// The length of an output's encoding.
fn output_size(output: &TxOut) -> (size: Option<usize>)
    ensures
        measured(size, output_bytes(output@).len()),
{
    proof {
        lemma_widths(output.value as int);
    }
    match prefixed_size(&output.script_pubkey) {
        Some(script) => script.checked_add(8),
        None => None,
    }
}

/// The length of the outputs' encoding.
fn outputs_size(outputs: &Vec<TxOut>) -> (size: Option<usize>)
    ensures
        measured(size, outputs_bytes(outputs_model(outputs@)).len()),
{
    let ghost all = outputs_model(outputs@);
    let mut size: usize = 0;
    let mut i: usize = 0;
    while i < outputs.len()
        invariant
            i <= outputs.len(),
            all == outputs_model(outputs@),
            size == outputs_bytes(all.take(i as int)).len(),
        decreases outputs.len() - i,
    {
        proof {
            lemma_outputs_bytes_take(all, i as int);
        }
        let next = match output_size(&outputs[i]) {
            Some(one) => size.checked_add(one),
            None => None,
        };
        size = match next {
            Some(n) => n,
            None => { return None; },
        };
        i = i + 1;
    }
    proof {
        assert(all.take(i as int) =~= all);
    }
    Some(size)
}

/// The length of a witness stack's encoding.
fn stack_size(items: &Vec<Vec<u8>>) -> (size: Option<usize>)
    ensures
        measured(size, stack_bytes(stack_model(items@)).len()),
{
    let ghost all = stack_model(items@);
    proof {
        lemma_widths(all.len() as int);
    }
    let mut size: usize = compact_size(items.len() as u64);
    let mut i: usize = 0;
    while i < items.len()
        invariant
            i <= items.len(),
            all == stack_model(items@),
            size == compact_len(all.len() as int) + items_bytes(all.take(i as int)).len(),
        decreases items.len() - i,
    {
        proof {
            lemma_widths(all.len() as int);
            lemma_items_bytes_take(all, i as int);
        }
        let next = match prefixed_size(&items[i]) {
            Some(one) => size.checked_add(one),
            None => None,
        };
        size = match next {
            Some(n) => n,
            None => { return None; },
        };
        i = i + 1;
    }
    proof {
        assert(all.take(i as int) =~= all);
    }
    Some(size)
}

/// The length of the witness section of the inputs.
fn witnesses_size(inputs: &Vec<TxIn>) -> (size: Option<usize>)
    ensures
        measured(size, witnesses_bytes(inputs_model(inputs@)).len()),
{
    let ghost all = inputs_model(inputs@);
    let mut size: usize = 0;
    let mut i: usize = 0;
    while i < inputs.len()
        invariant
            i <= inputs.len(),
            all == inputs_model(inputs@),
            size == witnesses_bytes(all.take(i as int)).len(),
        decreases inputs.len() - i,
    {
        proof {
            lemma_witnesses_bytes_take(all, i as int);
        }
        let next = match stack_size(&inputs[i].witness) {
            Some(one) => size.checked_add(one),
            None => None,
        };
        size = match next {
            Some(n) => n,
            None => { return None; },
        };
        i = i + 1;
    }
    proof {
        assert(all.take(i as int) =~= all);
    }
    Some(size)
}

/// The sum of two lengths, when both and the sum fit a `usize`.
fn both(first: Option<usize>, second: Option<usize>) -> (sum: Option<usize>)
    ensures
        match sum {
            Some(n) => first is Some && second is Some && n == first->0 + second->0,
            None => first is None || second is None || first->0 + second->0 > usize::MAX,
        },
{
    match (first, second) {
        (Some(a), Some(b)) => a.checked_add(b),
        _ => None,
    }
}

impl Transaction {
    /// The sum of the values of the outputs. No number of 64-bit values
    /// that a vector can hold overflows the result.
    pub fn total_output_value(&self) -> (sum: u128)
        ensures
            sum == values_sum(self@.outputs),
    {
        let ghost all = self@.outputs;
        let mut sum: u128 = 0;
        let mut i: usize = 0;
        while i < self.outputs.len()
            invariant
                i <= self.outputs.len(),
                all == outputs_model(self.outputs@),
                sum == values_sum(all.take(i as int)),
                sum <= i * u64::MAX,
            decreases self.outputs.len() - i,
        {
            proof {
                assert(all.take(i + 1).drop_last() =~= all.take(i as int));
            }
            sum = sum + self.outputs[i].value as u128;
            i = i + 1;
        }
        proof {
            assert(all.take(i as int) =~= all);
        }
        sum
    }

    /// The length of the encoding without marker and witness section, or
    /// `None` when it is too large for a `usize`.
    pub fn checked_base_size(&self) -> (size: Option<usize>)
        ensures
            measured(size, self@.base_size()),
    {
        proof {
            lemma_widths(unsigned32(self.version) as int);
            lemma_widths(self@.inputs.len() as int);
            lemma_widths(self@.outputs.len() as int);
            lemma_widths(self.lock_time as int);
        }
        let counts = 8 + compact_size(self.inputs.len() as u64) + compact_size(
            self.outputs.len() as u64,
        );
        both(Some(counts), both(inputs_size(&self.inputs), outputs_size(&self.outputs)))
    }

    /// The length of the encoding, or `None` when it is too large for a
    /// `usize`.
    pub fn checked_total_size(&self) -> (size: Option<usize>)
        ensures
            measured(size, self@.total_size()),
            size is Some <==> self@.fits_in_memory(),
    {
        proof {
            lemma_size_relations(self@);
        }
        let base = self.checked_base_size();
        if self.has_witness {
            both(base, both(Some(2), witnesses_size(&self.inputs)))
        } else {
            base
        }
    }

    /// The length of the encoding without marker and witness section.
    pub fn base_size(&self) -> (size: usize)
        requires
            self@.fits_in_memory(),
        ensures
            size == self@.base_size(),
    {
        proof {
            lemma_size_relations(self@);
        }
        self.checked_base_size().unwrap()
    }

    /// The length of the encoding: with marker and witness section when the
    /// transaction has the marker, the base size when it has not.
    pub fn total_size(&self) -> (size: usize)
        requires
            self@.fits_in_memory(),
        ensures
            size == self@.total_size(),
    {
        self.checked_total_size().unwrap()
    }

    /// Three times the base size plus the total size, in weight units.
    pub fn weight(&self) -> (weight: u128)
        requires
            self@.fits_in_memory(),
        ensures
            weight == self@.weight(),
            weight == 3 * self@.base_size() + self@.total_size(),
    {
        let base = self.base_size() as u128;
        let total = self.total_size() as u128;
        3 * base + total
    }

    /// A quarter of the weight, rounded up, in virtual bytes.
    pub fn virtual_size(&self) -> (size: usize)
        requires
            self@.fits_in_memory(),
        ensures
            size == self@.virtual_size(),
            4 * size >= self@.weight() > 4 * (size - 1),
    {
        proof {
            lemma_size_relations(self@);
        }
        let weight = self.weight();
        ((weight + 3) / 4) as usize
    }
}

} // verus!
