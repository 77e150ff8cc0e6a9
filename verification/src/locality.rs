//! A read depends only on the bytes it consumes. A buffer that holds the
//! same bytes, at the same or another position, reads the same; one that
//! ends inside them runs out of input. Hence a valid buffer cut short never
//! decodes, and one with bytes added after its end has trailing data.

use vstd::prelude::*;
use crate::bounds::lemma_body_span;
use crate::bounds::lemma_compact_span;
use crate::bounds::lemma_encoded_len;
use crate::bounds::lemma_input_section_span;
use crate::bounds::lemma_input_span;
use crate::bounds::lemma_output_section_span;
use crate::bounds::lemma_inputs_span;
use crate::bounds::lemma_items_span;
use crate::bounds::lemma_output_span;
use crate::bounds::lemma_outputs_span;
use crate::bounds::lemma_prefixed_span;
use crate::bounds::lemma_stack_span;
use crate::bounds::lemma_stacks_span;
use crate::cursor::take_bytes;
use crate::cursor::take_u16;
use crate::cursor::take_u32;
use crate::cursor::take_u64;
use crate::cursor::take_u8;
use crate::cursor::gives;
use crate::cursor::Parsed;
use crate::error::DecodeError;
use crate::error::Field;
use crate::grammar::decoded;
use crate::grammar::signed32;
use crate::grammar::take_body;
use crate::grammar::take_input;
use crate::grammar::take_input_section;
use crate::grammar::take_output_section;
use crate::grammar::take_inputs;
use crate::grammar::take_items;
use crate::grammar::take_marker;
use crate::grammar::take_output;
use crate::grammar::take_outputs;
use crate::grammar::take_prefixed;
use crate::grammar::take_stack;
use crate::grammar::take_stacks;
use crate::grammar::take_witnesses;
use crate::transaction::TransactionModel;
use crate::transaction::TxInModel;
use crate::varint::take_compact;

verus! {

/// From `q`, `t` holds the bytes that `s` holds from `p`: all `n` of them,
/// or as many as `t` has.
pub open spec fn same_bytes(s: Seq<u8>, p: int, t: Seq<u8>, q: int, n: int) -> bool {
    forall|j: int| q <= j < q + n && j < t.len() ==> #[trigger] t[j] == s[j - q + p]
}

/// True for a failure that says that the input ran out.
pub open spec fn ran_out<T>(r: Parsed<T>) -> bool {
    r matches Err(DecodeError::TruncatedInput { .. })
}

/// How a successful read `full`, made at `p`, carries over to a buffer of
/// `len` bytes that holds the consumed bytes from `q`: `other` returns the
/// same item after as many bytes where the buffer has them all, and runs
/// out of input where it has not.
pub open spec fn carried<T>(full: Parsed<T>, p: int, len: int, q: int, other: Parsed<T>) -> bool {
    match full {
        Ok((v, end)) => if q + (end - p) <= len {
            other == Ok::<(T, int), DecodeError>((v, q + (end - p)))
        } else {
            ran_out(other)
        },
        Err(_) => true,
    }
}

/// The bytes consumed by a successful read: none for a failed one.
pub open spec fn span<T>(full: Parsed<T>, p: int) -> int {
    match full {
        Ok((_, end)) => end - p,
        Err(_) => 0,
    }
}

/// One byte reads the same wherever the same byte stands.
pub proof fn lemma_u8_carried(s: Seq<u8>, p: int, t: Seq<u8>, q: int, field: Field)
    requires
        0 <= q <= t.len(),
        same_bytes(s, p, t, q, span(take_u8(s, p, field), p)),
    ensures
        carried(take_u8(s, p, field), p, t.len() as int, q, take_u8(t, q, field)),
{
}

/// A 16-bit value reads the same wherever the same bytes stand.
pub proof fn lemma_u16_carried(s: Seq<u8>, p: int, t: Seq<u8>, q: int, field: Field)
    requires
        0 <= q <= t.len(),
        same_bytes(s, p, t, q, span(take_u16(s, p, field), p)),
    ensures
        carried(take_u16(s, p, field), p, t.len() as int, q, take_u16(t, q, field)),
{
}

/// A 32-bit value reads the same wherever the same bytes stand.
pub proof fn lemma_u32_carried(s: Seq<u8>, p: int, t: Seq<u8>, q: int, field: Field)
    requires
        0 <= q <= t.len(),
        same_bytes(s, p, t, q, span(take_u32(s, p, field), p)),
    ensures
        carried(take_u32(s, p, field), p, t.len() as int, q, take_u32(t, q, field)),
{
}

/// A 64-bit value reads the same wherever the same bytes stand.
pub proof fn lemma_u64_carried(s: Seq<u8>, p: int, t: Seq<u8>, q: int, field: Field)
    requires
        0 <= q <= t.len(),
        same_bytes(s, p, t, q, span(take_u64(s, p, field), p)),
    ensures
        carried(take_u64(s, p, field), p, t.len() as int, q, take_u64(t, q, field)),
{
}

/// A run of raw bytes reads the same wherever the same bytes stand.
pub proof fn lemma_bytes_carried(s: Seq<u8>, p: int, t: Seq<u8>, q: int, n: int, field: Field)
    requires
        0 <= q <= t.len(),
        same_bytes(s, p, t, q, span(take_bytes(s, p, n, field), p)),
    ensures
        carried(take_bytes(s, p, n, field), p, t.len() as int, q, take_bytes(t, q, n, field)),
{
    if take_bytes(s, p, n, field) is Ok && q + n <= t.len() {
        assert(t.subrange(q, q + n) =~= s.subrange(p, p + n));
    }
}

/// A compact integer reads the same wherever the same bytes stand.
pub proof fn lemma_compact_carried(s: Seq<u8>, p: int, t: Seq<u8>, q: int, field: Field)
    requires
        0 <= q <= t.len(),
        same_bytes(s, p, t, q, span(take_compact(s, p, field), p)),
    ensures
        carried(take_compact(s, p, field), p, t.len() as int, q, take_compact(t, q, field)),
{
    reveal(take_compact);
    if take_compact(s, p, field) is Ok {
        lemma_u8_carried(s, p, t, q, field);
        if q + 1 <= t.len() {
            if s[p] == 0xfd {
                lemma_u16_carried(s, p + 1, t, q + 1, field);
            } else if s[p] == 0xfe {
                lemma_u32_carried(s, p + 1, t, q + 1, field);
            } else if s[p] == 0xff {
                lemma_u64_carried(s, p + 1, t, q + 1, field);
            }
        }
    }
}

/// A length-prefixed byte string reads the same wherever the same bytes
/// stand.
pub proof fn lemma_prefixed_carried(
    s: Seq<u8>,
    p: int,
    t: Seq<u8>,
    q: int,
    length: Field,
    body: Field,
)
    requires
        0 <= q <= t.len(),
        same_bytes(s, p, t, q, span(take_prefixed(s, p, length, body), p)),
    ensures
        carried(
            take_prefixed(s, p, length, body),
            p,
            t.len() as int,
            q,
            take_prefixed(t, q, length, body),
        ),
{
    reveal(take_prefixed);
    if let Ok((v, end)) = take_prefixed(s, p, length, body) {
        lemma_compact_span(s, p, length);
        let (n, at1) = take_compact(s, p, length)->Ok_0;
        lemma_compact_carried(s, p, t, q, length);
        let to1 = q + (at1 - p);
        if to1 <= t.len() {
            lemma_bytes_carried(s, at1, t, to1, n as int, body);
        }
    }
}

/// An input reads the same wherever the same bytes stand.
pub proof fn lemma_input_carried(s: Seq<u8>, p: int, t: Seq<u8>, q: int)
    requires
        0 <= q <= t.len(),
        same_bytes(s, p, t, q, span(take_input(s, p), p)),
    ensures
        carried(take_input(s, p), p, t.len() as int, q, take_input(t, q)),
{
    reveal(take_input);
    if let Ok((v, end)) = take_input(s, p) {
        lemma_prefixed_span(s, p + 36, Field::ScriptSigLength, Field::ScriptSig);
        let at3 = take_prefixed(s, p + 36, Field::ScriptSigLength, Field::ScriptSig)->Ok_0.1;
        lemma_bytes_carried(s, p, t, q, 32, Field::PreviousTxid);
        if q + 32 <= t.len() {
            lemma_u32_carried(s, p + 32, t, q + 32, Field::PreviousOutputIndex);
            if q + 36 <= t.len() {
                lemma_prefixed_carried(
                    s,
                    p + 36,
                    t,
                    q + 36,
                    Field::ScriptSigLength,
                    Field::ScriptSig,
                );
                let to3 = q + (at3 - p);
                if to3 <= t.len() {
                    lemma_u32_carried(s, at3, t, to3, Field::Sequence);
                }
            }
        }
    }
}

/// A run of inputs reads the same wherever the same bytes stand.
pub proof fn lemma_inputs_carried(s: Seq<u8>, p: int, t: Seq<u8>, q: int, count: nat)
    requires
        0 <= q <= t.len(),
        same_bytes(s, p, t, q, span(take_inputs(s, p, count), p)),
    ensures
        carried(take_inputs(s, p, count), p, t.len() as int, q, take_inputs(t, q, count)),
    decreases count,
{
    if count > 0 {
        if let Ok((v, end)) = take_inputs(s, p, count) {
            let (first, next) = take_input(s, p)->Ok_0;
            lemma_input_span(s, p);
            lemma_inputs_span(s, next, (count - 1) as nat);
            lemma_input_carried(s, p, t, q);
            let to1 = q + (next - p);
            if to1 <= t.len() {
                lemma_inputs_carried(s, next, t, to1, (count - 1) as nat);
            }
        }
    }
}

/// An output reads the same wherever the same bytes stand.
pub proof fn lemma_output_carried(s: Seq<u8>, p: int, t: Seq<u8>, q: int)
    requires
        0 <= q <= t.len(),
        same_bytes(s, p, t, q, span(take_output(s, p), p)),
    ensures
        carried(take_output(s, p), p, t.len() as int, q, take_output(t, q)),
{
    reveal(take_output);
    if let Ok((v, end)) = take_output(s, p) {
        lemma_prefixed_span(s, p + 8, Field::ScriptPubkeyLength, Field::ScriptPubkey);
        lemma_u64_carried(s, p, t, q, Field::Value);
        if q + 8 <= t.len() {
            lemma_prefixed_carried(
                s,
                p + 8,
                t,
                q + 8,
                Field::ScriptPubkeyLength,
                Field::ScriptPubkey,
            );
        }
    }
}

/// A run of outputs reads the same wherever the same bytes stand.
pub proof fn lemma_outputs_carried(s: Seq<u8>, p: int, t: Seq<u8>, q: int, count: nat)
    requires
        0 <= q <= t.len(),
        same_bytes(s, p, t, q, span(take_outputs(s, p, count), p)),
    ensures
        carried(take_outputs(s, p, count), p, t.len() as int, q, take_outputs(t, q, count)),
    decreases count,
{
    if count > 0 {
        if let Ok((v, end)) = take_outputs(s, p, count) {
            let (first, next) = take_output(s, p)->Ok_0;
            lemma_output_span(s, p);
            lemma_outputs_span(s, next, (count - 1) as nat);
            lemma_output_carried(s, p, t, q);
            let to1 = q + (next - p);
            if to1 <= t.len() {
                lemma_outputs_carried(s, next, t, to1, (count - 1) as nat);
            }
        }
    }
}

/// A run of witness items reads the same wherever the same bytes stand.
pub proof fn lemma_items_carried(s: Seq<u8>, p: int, t: Seq<u8>, q: int, count: nat)
    requires
        0 <= q <= t.len(),
        same_bytes(s, p, t, q, span(take_items(s, p, count), p)),
    ensures
        carried(take_items(s, p, count), p, t.len() as int, q, take_items(t, q, count)),
    decreases count,
{
    if count > 0 {
        if let Ok((v, end)) = take_items(s, p, count) {
            let (first, next) = take_prefixed(
                s,
                p,
                Field::WitnessItemLength,
                Field::WitnessItem,
            )->Ok_0;
            lemma_prefixed_span(s, p, Field::WitnessItemLength, Field::WitnessItem);
            lemma_items_span(s, next, (count - 1) as nat);
            lemma_prefixed_carried(s, p, t, q, Field::WitnessItemLength, Field::WitnessItem);
            let to1 = q + (next - p);
            if to1 <= t.len() {
                lemma_items_carried(s, next, t, to1, (count - 1) as nat);
            }
        }
    }
}

/// A witness stack reads the same wherever the same bytes stand.
pub proof fn lemma_stack_carried(s: Seq<u8>, p: int, t: Seq<u8>, q: int)
    requires
        0 <= q <= t.len(),
        same_bytes(s, p, t, q, span(take_stack(s, p), p)),
    ensures
        carried(take_stack(s, p), p, t.len() as int, q, take_stack(t, q)),
{
    reveal(take_stack);
    if let Ok((v, end)) = take_stack(s, p) {
        let (n, next) = take_compact(s, p, Field::WitnessItemCount)->Ok_0;
        lemma_compact_span(s, p, Field::WitnessItemCount);
        lemma_items_span(s, next, n as nat);
        lemma_compact_carried(s, p, t, q, Field::WitnessItemCount);
        let to1 = q + (next - p);
        if to1 <= t.len() {
            lemma_items_carried(s, next, t, to1, n as nat);
        }
    }
}

/// A run of witness stacks reads the same wherever the same bytes stand.
pub proof fn lemma_stacks_carried(s: Seq<u8>, p: int, t: Seq<u8>, q: int, count: nat)
    requires
        0 <= q <= t.len(),
        same_bytes(s, p, t, q, span(take_stacks(s, p, count), p)),
    ensures
        carried(take_stacks(s, p, count), p, t.len() as int, q, take_stacks(t, q, count)),
    decreases count,
{
    if count > 0 {
        if let Ok((v, end)) = take_stacks(s, p, count) {
            let (first, next) = take_stack(s, p)->Ok_0;
            lemma_stack_span(s, p);
            lemma_stacks_span(s, next, (count - 1) as nat);
            lemma_stack_carried(s, p, t, q);
            let to1 = q + (next - p);
            if to1 <= t.len() {
                lemma_stacks_carried(s, next, t, to1, (count - 1) as nat);
            }
        }
    }
}

/// The witness section reads the same wherever the same bytes stand.
pub proof fn lemma_witnesses_carried(
    s: Seq<u8>,
    p: int,
    t: Seq<u8>,
    q: int,
    bare: Seq<TxInModel>,
    marked: bool,
)
    requires
        0 <= q <= t.len(),
        same_bytes(s, p, t, q, span(take_witnesses(s, p, bare, marked), p)),
    ensures
        carried(
            take_witnesses(s, p, bare, marked),
            p,
            t.len() as int,
            q,
            take_witnesses(t, q, bare, marked),
        ),
{
    if marked {
        lemma_stacks_carried(s, p, t, q, bare.len());
    }
}

/// The input section reads the same wherever the same bytes stand.
pub proof fn lemma_input_section_carried(s: Seq<u8>, p: int, t: Seq<u8>, q: int)
    requires
        0 <= q <= t.len(),
        same_bytes(s, p, t, q, span(take_input_section(s, p), p)),
    ensures
        carried(take_input_section(s, p), p, t.len() as int, q, take_input_section(t, q)),
{
    reveal(take_input_section);
    if let Ok((v, end)) = take_input_section(s, p) {
        let (n, next) = take_compact(s, p, Field::InputCount)->Ok_0;
        lemma_compact_span(s, p, Field::InputCount);
        lemma_inputs_span(s, next, n as nat);
        lemma_compact_carried(s, p, t, q, Field::InputCount);
        let to1 = q + (next - p);
        if to1 <= t.len() {
            lemma_inputs_carried(s, next, t, to1, n as nat);
        }
    }
}

/// The output section reads the same wherever the same bytes stand.
pub proof fn lemma_output_section_carried(s: Seq<u8>, p: int, t: Seq<u8>, q: int)
    requires
        0 <= q <= t.len(),
        same_bytes(s, p, t, q, span(take_output_section(s, p), p)),
    ensures
        carried(take_output_section(s, p), p, t.len() as int, q, take_output_section(t, q)),
{
    reveal(take_output_section);
    if let Ok((v, end)) = take_output_section(s, p) {
        let (n, next) = take_compact(s, p, Field::OutputCount)->Ok_0;
        lemma_compact_span(s, p, Field::OutputCount);
        lemma_outputs_span(s, next, n as nat);
        lemma_compact_carried(s, p, t, q, Field::OutputCount);
        let to1 = q + (next - p);
        if to1 <= t.len() {
            lemma_outputs_carried(s, next, t, to1, n as nat);
        }
    }
}

/// What follows version and marker reads the same wherever the same bytes
/// stand.
pub proof fn lemma_body_carried(
    s: Seq<u8>,
    p: int,
    t: Seq<u8>,
    q: int,
    version: i32,
    marked: bool,
)
    requires
        0 <= q <= t.len(),
        same_bytes(s, p, t, q, span(take_body(s, p, version, marked), p)),
    ensures
        carried(
            take_body(s, p, version, marked),
            p,
            t.len() as int,
            q,
            take_body(t, q, version, marked),
        ),
{
    reveal(take_body);
    if let Ok((tx, end)) = take_body(s, p, version, marked) {
        let (bare, at1) = take_input_section(s, p)->Ok_0;
        let (outputs, at2) = take_output_section(s, at1)->Ok_0;
        let (inputs, at3) = take_witnesses(s, at2, bare, marked)->Ok_0;
        lemma_input_section_span(s, p);
        lemma_output_section_span(s, at1);
        if marked {
            lemma_stacks_span(s, at2, bare.len());
        }
        let d = q - p;
        lemma_input_section_carried(s, p, t, q);
        if at1 + d <= t.len() {
            lemma_output_section_carried(s, at1, t, at1 + d);
            if at2 + d <= t.len() {
                lemma_witnesses_carried(s, at2, t, at2 + d, bare, marked);
                if at3 + d <= t.len() {
                    lemma_u32_carried(s, at3, t, at3 + d, Field::LockTime);
                }
            }
        }
    }
}

/// A buffer that decodes, cut short anywhere before its end, does not
/// decode: the decoder reports that the input ran out.
pub proof fn lemma_truncated_never_decodes(s: Seq<u8>, k: int)
    requires
        decoded(s) is Ok,
        0 <= k < s.len(),
    ensures
        decoded(s.take(k)) matches Err(DecodeError::TruncatedInput { .. }),
{
    let t = s.take(k);
    let raw = take_u32(s, 0, Field::Version)->Ok_0.0;
    let (marked, at2) = take_marker(s, 4)->Ok_0;
    lemma_body_span(s, at2, signed32(raw), marked);
    if k >= 4 {
        assert(gives(take_u32(t, 0, Field::Version), raw, 4));
        if k >= 6 || !marked {
            assert(take_marker(t, 4) == take_marker(s, 4));
            lemma_body_carried(s, at2, t, at2, signed32(raw), marked);
        } else {
            assert(gives(take_marker(t, 4), false, 4));
            reveal(take_body);
            reveal(take_input_section);
            reveal(take_output_section);
            reveal(take_compact);
            if k == 5 {
                assert(t[4] == 0);
                assert(gives(take_compact(t, 4, Field::InputCount), 0, 5));
                assert(gives(take_inputs(t, 5, 0), Seq::empty(), 5));
                assert(ran_out(take_compact(t, 5, Field::OutputCount)));
            }
        }
    }
}

/// A buffer that decodes, with one more byte after its end, does not
/// decode: the decoder reports one byte of trailing data.
pub proof fn lemma_appended_byte_is_trailing(s: Seq<u8>, extra: u8)
    requires
        decoded(s) is Ok,
    ensures
        decoded(s.push(extra)) == Err::<TransactionModel, DecodeError>(
            DecodeError::TrailingData { extra: 1 },
        ),
{
    let t = s.push(extra);
    let raw = take_u32(s, 0, Field::Version)->Ok_0.0;
    let (marked, at2) = take_marker(s, 4)->Ok_0;
    lemma_body_span(s, at2, signed32(raw), marked);
    lemma_encoded_len(decoded(s)->Ok_0);
    assert(gives(take_u32(t, 0, Field::Version), raw, 4));
    assert(take_marker(t, 4) == take_marker(s, 4));
    lemma_body_carried(s, at2, t, at2, signed32(raw), marked);
}

} // verus!
