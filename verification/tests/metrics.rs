use btc_tx_decoder::decode_transaction;
use btc_tx_decoder::decoder::decode;
use btc_tx_decoder::transaction::OutPoint;
use btc_tx_decoder::transaction::Transaction;
use btc_tx_decoder::transaction::TxIn;
use btc_tx_decoder::transaction::TxOut;

const LEGACY_TX: &str = "0100000001c997a5e56e104102fa209c6a852dd90660a20b2d9c352423edce25857fcd3704000000006b48304502210085e06b2d9e8cd4f2e88e60f5d4a69ff8e28fad7e8aecb8ab5c4ab34e3c42f044022028de87e6bb9dab5c6b8a88e4c8ef11b3d7d35a36e38ec4ba41c15d5b6e8713580121035ddc8e7f9e1e8f6b7b5f1b8c0b3e1e5d9e9f8b0b1b1b1b1b1b1b1b1b1b1b1b1bffffffff0200e1f505000000001976a914ab68025513c3dbd2f7b92a94e0581f5d50f654e788acd0ef8100000000001976a9148d1c5f69c46a73328b5f23f82a2de5e6b50e1e7588ac00000000";

fn input_with(script_len: usize, witness: Vec<Vec<u8>>) -> TxIn {
    TxIn {
        previous_output: OutPoint { previous_txid: [7; 32], previous_output_index: 3 },
        script_sig: vec![0xac; script_len],
        sequence: 0,
        witness,
    }
}

fn output_with(value: u64, script_len: usize) -> TxOut {
    TxOut { value, script_pubkey: vec![0x51; script_len] }
}

#[test]
fn sizes_of_a_legacy_transaction() {
    let tx = decode_transaction(LEGACY_TX).unwrap();
    assert_eq!(tx.base_size(), 226);
    assert_eq!(tx.total_size(), 226);
    assert_eq!(tx.weight(), 904);
    assert_eq!(tx.virtual_size(), 226);
}

#[test]
fn sizes_of_a_witness_transaction() {
    let tx = Transaction {
        version: 2,
        inputs: vec![input_with(0, vec![vec![0x30; 72], vec![0x02; 33]])],
        outputs: vec![output_with(1_000_000, 22), output_with(0, 4)],
        lock_time: 0,
        has_witness: true,
    };
    // 4 + 1 + (32 + 4 + 1 + 4) + 1 + (8 + 1 + 22) + (8 + 1 + 4) + 4
    assert_eq!(tx.base_size(), 95);
    // marker and flag, then 1 + (1 + 72) + (1 + 33)
    assert_eq!(tx.total_size(), 95 + 2 + 108);
    assert_eq!(tx.weight(), 3 * 95 + 205);
    assert_eq!(tx.weight(), 490);
    // 490 / 4 = 122.5
    assert_eq!(tx.virtual_size(), 123);
}

#[test]
fn virtual_size_rounds_up() {
    for extra in 0..9usize {
        let tx = Transaction {
            version: 2,
            inputs: vec![input_with(0, vec![vec![0x01; extra]])],
            outputs: vec![],
            lock_time: 0,
            has_witness: true,
        };
        let base = 4 + 1 + 41 + 1 + 4;
        let total = base + 2 + 1 + 1 + extra;
        assert_eq!(tx.base_size(), base);
        assert_eq!(tx.total_size(), total);
        let weight = tx.weight();
        assert_eq!(weight, (3 * base + total) as u128);
        let vsize = tx.virtual_size() as u128;
        assert!(4 * vsize >= weight);
        assert!(4 * (vsize - 1) < weight);
    }
}

#[test]
fn witness_data_is_not_counted_without_the_marker() {
    let tx = Transaction {
        version: 1,
        inputs: vec![input_with(5, vec![vec![0x01; 500]])],
        outputs: vec![output_with(1, 3)],
        lock_time: 0,
        has_witness: false,
    };
    assert_eq!(tx.base_size(), 4 + 1 + (41 + 5) + 1 + (9 + 3) + 4);
    assert_eq!(tx.total_size(), tx.base_size());
    assert_eq!(tx.weight(), 4 * tx.base_size() as u128);
    assert_eq!(tx.virtual_size(), tx.base_size());
}

#[test]
fn sizes_use_the_shortest_compact_form() {
    // a script of 253 bytes takes a three-byte length
    let tx = Transaction {
        version: 1,
        inputs: vec![input_with(253, vec![])],
        outputs: vec![output_with(1, 252)],
        lock_time: 0,
        has_witness: false,
    };
    assert_eq!(tx.base_size(), 4 + 1 + (40 + 3 + 253) + 1 + (8 + 1 + 252) + 4);
    // 253 outputs take a three-byte count
    let many = Transaction {
        version: 1,
        inputs: vec![],
        outputs: vec![output_with(1, 0); 253],
        lock_time: 0,
        has_witness: true,
    };
    assert_eq!(many.base_size(), 4 + 1 + 3 + 253 * 9 + 4);
    assert_eq!(many.total_size(), many.base_size() + 2);
    // a script of 65536 bytes takes a five-byte length
    let big = Transaction {
        version: 1,
        inputs: vec![],
        outputs: vec![output_with(1, 65536)],
        lock_time: 0,
        has_witness: false,
    };
    assert_eq!(big.base_size(), 4 + 1 + 1 + (8 + 5 + 65536) + 4);
}

#[test]
fn a_decoded_transaction_is_no_longer_than_its_buffer() {
    // counts and a length in forms longer than needed: 25 bytes for a
    // transaction whose shortest encoding has 20
    let mut b: Vec<u8> = Vec::new();
    b.extend_from_slice(&[0x01, 0x00, 0x00, 0x00]);
    b.extend_from_slice(&[0xfd, 0x00, 0x00]);
    b.extend_from_slice(&[0xfd, 0x01, 0x00]);
    b.extend_from_slice(&[0x05, 0x00, 0x00, 0x00, 0x00, 0x00, 0x00, 0x00]);
    b.extend_from_slice(&[0xfd, 0x01, 0x00]);
    b.push(0x6a);
    b.extend_from_slice(&[0x00; 4]);
    let tx = decode(&b).unwrap();
    assert_eq!(b.len(), 26);
    assert_eq!(tx.total_size(), 20);
    assert_eq!(tx.base_size(), 20);
}

#[test]
fn total_output_value_adds_the_values() {
    let tx = decode_transaction(LEGACY_TX).unwrap();
    assert_eq!(tx.total_output_value(), 100_000_000 + 8_515_536);
    let none = Transaction {
        version: 1,
        inputs: vec![],
        outputs: vec![],
        lock_time: 0,
        has_witness: false,
    };
    assert_eq!(none.total_output_value(), 0);
    let large = Transaction {
        version: 1,
        inputs: vec![],
        outputs: vec![output_with(u64::MAX, 0), output_with(u64::MAX, 0), output_with(2, 0)],
        lock_time: 0,
        has_witness: false,
    };
    assert_eq!(large.total_output_value(), 2 * (u64::MAX as u128) + 2);
}

#[test]
fn checked_sizes_are_the_sizes() {
    let tx = decode_transaction(LEGACY_TX).unwrap();
    assert_eq!(tx.checked_base_size(), Some(226));
    assert_eq!(tx.checked_total_size(), Some(226));
    let tx = Transaction {
        version: 2,
        inputs: vec![input_with(0, vec![vec![0x30; 72], vec![0x02; 33]]), input_with(3, vec![])],
        outputs: vec![output_with(1_000_000, 22)],
        lock_time: 0,
        has_witness: true,
    };
    assert_eq!(tx.checked_base_size(), Some(4 + 1 + 41 + 44 + 1 + 31 + 4));
    assert_eq!(tx.checked_total_size(), Some(126 + 2 + 108 + 1));
    assert_eq!(tx.checked_base_size(), Some(tx.base_size()));
    assert_eq!(tx.checked_total_size(), Some(tx.total_size()));
}
