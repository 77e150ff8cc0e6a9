use btc_tx_decoder::classify::is_ephemeral_anchor;
use btc_tx_decoder::decode_transaction;
use btc_tx_decoder::decoder::decode;
use btc_tx_decoder::timelock::RelativeLock;
use btc_tx_decoder::transaction::Transaction;

const LEGACY_TX: &str = "0100000001c997a5e56e104102fa209c6a852dd90660a20b2d9c352423edce25857fcd3704000000006b48304502210085e06b2d9e8cd4f2e88e60f5d4a69ff8e28fad7e8aecb8ab5c4ab34e3c42f044022028de87e6bb9dab5c6b8a88e4c8ef11b3d7d35a36e38ec4ba41c15d5b6e8713580121035ddc8e7f9e1e8f6b7b5f1b8c0b3e1e5d9e9f8b0b1b1b1b1b1b1b1b1b1b1b1b1bffffffff0200e1f505000000001976a914ab68025513c3dbd2f7b92a94e0581f5d50f654e788acd0ef8100000000001976a9148d1c5f69c46a73328b5f23f82a2de5e6b50e1e7588ac00000000";

fn two_input_encoding(items: &[usize], script_len: usize) -> Vec<u8> {
    let mut b: Vec<u8> = Vec::new();
    b.extend_from_slice(&[0x02, 0x00, 0x00, 0x00]);
    b.extend_from_slice(&[0x00, 0x01]);
    b.push(0x02);
    for k in 0..2u8 {
        b.extend_from_slice(&[0x11 + k; 32]);
        b.extend_from_slice(&[k, 0x00, 0x00, 0x00]);
        b.push(0x00);
        b.extend_from_slice(&[0x90, 0x00, 0x40 * k, 0x00]);
    }
    b.push(0x02);
    b.extend_from_slice(&[0x40, 0x42, 0x0f, 0x00, 0x00, 0x00, 0x00, 0x00]);
    if script_len < 0xfd {
        b.push(script_len as u8);
    } else {
        b.push(0xfd);
        b.push((script_len % 256) as u8);
        b.push((script_len / 256) as u8);
    }
    b.extend(std::iter::repeat(0x6a).take(script_len));
    b.extend_from_slice(&[0xf0, 0x00, 0x00, 0x00, 0x00, 0x00, 0x00, 0x00]);
    b.push(4);
    b.extend_from_slice(&[0x51, 0x02, 0x4e, 0x73]);
    for _ in 0..2 {
        b.push(items.len() as u8);
        for len in items {
            b.push(*len as u8);
            b.extend(std::iter::repeat(0x30).take(*len));
        }
    }
    b.extend_from_slice(&[0x40, 0xe2, 0x01, 0x00]);
    b
}

fn agrees(ours: &Transaction, theirs: &bitcoin::Transaction) {
    assert_eq!(ours.version, theirs.version.0);
    assert_eq!(ours.lock_time, theirs.lock_time.to_consensus_u32());
    assert_eq!(ours.inputs.len(), theirs.input.len());
    assert_eq!(ours.outputs.len(), theirs.output.len());
    for (a, b) in ours.inputs.iter().zip(theirs.input.iter()) {
        assert_eq!(
            a.previous_output.previous_txid,
            bitcoin::hashes::Hash::to_byte_array(b.previous_output.txid)
        );
        assert_eq!(a.previous_output.previous_output_index, b.previous_output.vout);
        assert_eq!(a.script_sig.as_slice(), b.script_sig.as_bytes());
        assert_eq!(a.sequence, b.sequence.0);
        assert_eq!(a.witness, b.witness.to_vec());
        let lock = a.relative_lock().map(|l| match l {
            RelativeLock::Blocks(n) => (false, n),
            RelativeLock::Intervals(n) => (true, n),
        });
        let their_lock = if b.sequence.is_relative_lock_time() {
            Some((b.sequence.is_time_locked(), b.sequence.0 as u16))
        } else {
            None
        };
        assert_eq!(lock, their_lock);
    }
    for (a, b) in ours.outputs.iter().zip(theirs.output.iter()) {
        assert_eq!(a.value, b.value.to_sat());
        assert_eq!(a.script_pubkey.as_slice(), b.script_pubkey.as_bytes());
        assert_eq!(is_ephemeral_anchor(a), b.script_pubkey.as_bytes() == [0x51, 0x02, 0x4e, 0x73]);
    }
    assert_eq!(ours.base_size(), theirs.base_size());
    assert_eq!(ours.total_size(), theirs.total_size());
    assert_eq!(ours.weight(), theirs.weight().to_wu() as u128);
    assert_eq!(ours.virtual_size(), theirs.vsize());
    let sum: u128 = theirs.output.iter().map(|o| o.value.to_sat() as u128).sum();
    assert_eq!(ours.total_output_value(), sum);
}

#[test]
fn legacy_transaction_agrees_with_the_consensus_decoder() {
    let bytes = hex::decode(LEGACY_TX).unwrap();
    let theirs: bitcoin::Transaction = bitcoin::consensus::encode::deserialize(&bytes).unwrap();
    let ours = decode_transaction(LEGACY_TX).unwrap();
    assert!(!ours.has_witness);
    agrees(&ours, &theirs);
    assert_eq!(decode(&bytes).unwrap(), ours);
}

#[test]
fn witness_transactions_agree_with_the_consensus_decoder() {
    let shapes: [(&[usize], usize); 5] =
        [(&[72, 33], 22), (&[64], 34), (&[0, 71, 71, 105], 252), (&[1], 253), (&[0, 1], 600)];
    for (items, script_len) in shapes {
        let bytes = two_input_encoding(items, script_len);
        let theirs: bitcoin::Transaction =
            bitcoin::consensus::encode::deserialize(&bytes).unwrap();
        let ours = decode(&bytes).unwrap();
        assert!(ours.has_witness);
        agrees(&ours, &theirs);
    }
}

#[test]
fn a_decoded_transaction_written_again_gives_the_same_bytes_and_decodes_alike() {
    let mut encodings = vec![hex::decode(LEGACY_TX).unwrap()];
    encodings.push(two_input_encoding(&[72, 33], 22));
    encodings.push(two_input_encoding(&[0, 71, 71, 105], 300));
    for bytes in encodings {
        let ours = decode(&bytes).unwrap();
        let theirs: bitcoin::Transaction =
            bitcoin::consensus::encode::deserialize(&bytes).unwrap();
        let written = bitcoin::consensus::encode::serialize(&theirs);
        assert_eq!(written, bytes);
        assert_eq!(written.len(), ours.total_size());
        assert_eq!(decode(&written).unwrap(), ours);
    }
}

#[test]
fn hex_text_gives_the_bytes_that_the_hex_crate_gives() {
    let text = "02000000000000000000";
    let bytes = hex::decode(text).unwrap();
    assert_eq!(bytes.len(), 10);
    assert_eq!(decode_transaction(text), decode(&bytes));
    let text = "020000000000EFcdAB89";
    let bytes = hex::decode(text).unwrap();
    assert_eq!(decode_transaction(text), decode(&bytes));
    assert_eq!(decode_transaction(text).unwrap().lock_time, 0x89ab_cdef);
}

fn next(state: &mut u64) -> u64 {
    *state = state.wrapping_mul(6364136223846793005).wrapping_add(1442695040888963407);
    *state >> 33
}

fn some_bytes(state: &mut u64, len: usize) -> Vec<u8> {
    (0..len).map(|_| next(state) as u8).collect()
}

fn some_length(state: &mut u64) -> usize {
    match next(state) % 8 {
        0 => 0,
        1 => 252,
        2 => 253,
        3 => 70_000,
        _ => (next(state) % 120) as usize,
    }
}

fn some_transaction(state: &mut u64) -> bitcoin::Transaction {
    let with_witness = next(state) % 2 == 0;
    let inputs = 1 + (next(state) % 4) as usize;
    let outputs = (next(state) % 4) as usize;
    let mut tx = bitcoin::Transaction {
        version: bitcoin::transaction::Version(next(state) as u32 as i32),
        lock_time: bitcoin::absolute::LockTime::from_consensus(next(state) as u32),
        input: Vec::new(),
        output: Vec::new(),
    };
    for k in 0..inputs {
        let mut txid = [0u8; 32];
        txid.copy_from_slice(&some_bytes(state, 32));
        let script_len = some_length(state);
        let mut stack: Vec<Vec<u8>> = Vec::new();
        if with_witness {
            let items = if k == 0 { 1 + next(state) % 3 } else { next(state) % 4 };
            for _ in 0..items {
                let len = some_length(state);
                stack.push(some_bytes(state, len));
            }
        }
        tx.input.push(bitcoin::TxIn {
            previous_output: bitcoin::OutPoint {
                txid: bitcoin::hashes::Hash::from_byte_array(txid),
                vout: next(state) as u32,
            },
            script_sig: bitcoin::ScriptBuf::from_bytes(some_bytes(state, script_len)),
            sequence: bitcoin::Sequence(next(state) as u32),
            witness: bitcoin::Witness::from_slice(&stack),
        });
    }
    for _ in 0..outputs {
        let script_len = some_length(state);
        tx.output.push(bitcoin::TxOut {
            value: bitcoin::Amount::from_sat(next(state) << 20 | next(state)),
            script_pubkey: bitcoin::ScriptBuf::from_bytes(some_bytes(state, script_len)),
        });
    }
    tx
}

#[test]
fn many_written_transactions_decode_to_what_was_written() {
    let mut state: u64 = 0x5eed;
    for _ in 0..300 {
        let theirs = some_transaction(&mut state);
        let bytes = bitcoin::consensus::encode::serialize(&theirs);
        let ours = decode(&bytes).unwrap();
        assert_eq!(ours.has_witness, theirs.input.iter().any(|i| !i.witness.is_empty()));
        agrees(&ours, &theirs);
        assert_eq!(ours.total_size(), bytes.len());
        let again: bitcoin::Transaction =
            bitcoin::consensus::encode::deserialize(&bytes).unwrap();
        assert_eq!(again, theirs);
    }
}

#[test]
fn cutting_or_extending_a_written_transaction_fails_in_both_decoders() {
    let mut state: u64 = 0xfeed;
    for _ in 0..40 {
        let theirs = some_transaction(&mut state);
        let bytes = bitcoin::consensus::encode::serialize(&theirs);
        let cut = (next(&mut state) as usize) % bytes.len();
        assert!(matches!(
            decode(&bytes[..cut]),
            Err(btc_tx_decoder::error::DecodeError::TruncatedInput { .. })
        ));
        assert!(bitcoin::consensus::encode::deserialize::<bitcoin::Transaction>(&bytes[..cut])
            .is_err());
        let mut longer = bytes.clone();
        longer.push(next(&mut state) as u8);
        assert_eq!(
            decode(&longer),
            Err(btc_tx_decoder::error::DecodeError::TrailingData { extra: 1 })
        );
        assert!(bitcoin::consensus::encode::deserialize::<bitcoin::Transaction>(&longer).is_err());
    }
}

fn consensus(bytes: &[u8]) -> Result<bitcoin::Transaction, bitcoin::consensus::encode::Error> {
    bitcoin::consensus::encode::deserialize(bytes)
}

#[test]
fn a_longer_compact_form_is_accepted_here_and_refused_by_the_consensus_decoder() {
    // one input whose script length 3 is written in the three-byte form
    let mut b: Vec<u8> = Vec::new();
    b.extend_from_slice(&[0x01, 0x00, 0x00, 0x00, 0x01]);
    b.extend_from_slice(&[0xab; 32]);
    b.extend_from_slice(&[0x00; 4]);
    b.extend_from_slice(&[0xfd, 0x03, 0x00, 0x51, 0x52, 0x53]);
    b.extend_from_slice(&[0xff; 4]);
    b.push(0x00);
    b.extend_from_slice(&[0x00; 4]);
    let ours = decode(&b).unwrap();
    assert_eq!(ours.inputs[0].script_sig, vec![0x51, 0x52, 0x53]);
    assert!(consensus(&b).is_err());
    // in the shortest form the two agree
    b.splice(41..44, [0x03]);
    agrees(&decode(&b).unwrap(), &consensus(&b).unwrap());
}

#[test]
fn an_encoding_without_inputs_and_outputs_is_accepted_here_only() {
    let b = [0x02, 0x00, 0x00, 0x00, 0x00, 0x00, 0x00, 0x00, 0x00, 0x00];
    let ours = decode(&b).unwrap();
    assert!(ours.inputs.is_empty() && ours.outputs.is_empty() && !ours.has_witness);
    assert!(consensus(&b).is_err());
}

#[test]
fn a_marker_before_empty_stacks_is_accepted_here_only() {
    let mut b: Vec<u8> = Vec::new();
    b.extend_from_slice(&[0x02, 0x00, 0x00, 0x00, 0x00, 0x01, 0x01]);
    b.extend_from_slice(&[0x33; 32]);
    b.extend_from_slice(&[0x00; 4]);
    b.push(0x00);
    b.extend_from_slice(&[0xff; 4]);
    b.push(0x00);
    b.push(0x00);
    b.extend_from_slice(&[0x00; 4]);
    let ours = decode(&b).unwrap();
    assert!(ours.has_witness);
    assert!(ours.inputs[0].witness.is_empty());
    assert!(consensus(&b).is_err());
}
