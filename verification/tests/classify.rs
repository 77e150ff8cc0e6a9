use btc_tx_decoder::classify::anchor_address;
use btc_tx_decoder::classify::decode_witness_item;
use btc_tx_decoder::classify::detect_input_type;
use btc_tx_decoder::classify::is_ephemeral_anchor;
use btc_tx_decoder::classify::InputType;
use btc_tx_decoder::classify::WitnessItemKind;
use btc_tx_decoder::transaction::OutPoint;
use btc_tx_decoder::transaction::TxIn;
use btc_tx_decoder::transaction::TxOut;

fn input(script_len: usize, witness: Vec<Vec<u8>>) -> TxIn {
    TxIn {
        previous_output: OutPoint { previous_txid: [0; 32], previous_output_index: 0 },
        script_sig: vec![0x51; script_len],
        sequence: 0xffff_ffff,
        witness,
    }
}

fn item(len: usize) -> Vec<u8> {
    vec![0x01; len]
}

fn led(lead: u8, len: usize) -> Vec<u8> {
    let mut v = vec![0x01; len];
    v[0] = lead;
    v
}

#[test]
fn signature_and_key_is_witness_public_key_hash() {
    let t = detect_input_type(&input(0, vec![item(72), item(33)]));
    assert_eq!(t, InputType::WitnessPublicKeyHash);
    assert_eq!(t.label(), "pay-to-witness-public-key-hash");
    assert_eq!(
        detect_input_type(&input(0, vec![item(72), item(65)])),
        InputType::WitnessPublicKeyHash
    );
    assert_eq!(
        detect_input_type(&input(23, vec![item(0), item(33)])),
        InputType::WitnessPublicKeyHash
    );
}

#[test]
fn one_item_of_64_bytes_is_taproot_key_path() {
    let t = detect_input_type(&input(0, vec![item(64)]));
    assert_eq!(t, InputType::TaprootKeyPath);
    assert_eq!(t.label(), "taproot key-path spend");
    assert_eq!(detect_input_type(&input(0, vec![item(65)])), InputType::TaprootKeyPath);
}

#[test]
fn script_of_107_bytes_without_witness_is_legacy_public_key_hash() {
    let t = detect_input_type(&input(107, vec![]));
    assert_eq!(t, InputType::LegacyPublicKeyHash);
    assert_eq!(t.label(), "pay-to-public-key-hash (legacy)");
}

#[test]
fn a_long_last_item_is_witness_script_hash() {
    let t = detect_input_type(&input(0, vec![item(0), item(71), item(71), item(105)]));
    assert_eq!(t, InputType::WitnessScriptHash);
    assert_eq!(t.label(), "pay-to-witness-script-hash");
    // two items whose second is neither 33 nor 65 bytes fall through to this rule
    assert_eq!(
        detect_input_type(&input(0, vec![item(72), item(34)])),
        InputType::WitnessScriptHash
    );
    assert_eq!(
        detect_input_type(&input(0, vec![item(72), item(64)])),
        InputType::WitnessScriptHash
    );
    // a control block longer than 33 bytes is caught by this rule first
    assert_eq!(
        detect_input_type(&input(0, vec![item(64), item(40), led(0xc0, 65)])),
        InputType::WitnessScriptHash
    );
}

#[test]
fn a_short_last_item_with_a_control_byte_is_taproot_script_path() {
    let t = detect_input_type(&input(0, vec![item(10), led(0xc0, 33)]));
    // two items, second of 33 bytes: the first rule wins
    assert_eq!(t, InputType::WitnessPublicKeyHash);
    let t = detect_input_type(&input(0, vec![item(10), item(5), led(0xc0, 33)]));
    assert_eq!(t, InputType::TaprootScriptPath);
    assert_eq!(t.label(), "taproot script-path spend");
    assert_eq!(
        detect_input_type(&input(0, vec![item(10), led(0xc1, 1)])),
        InputType::TaprootScriptPath
    );
    assert_eq!(
        detect_input_type(&input(0, vec![item(10), led(0xc2, 20)])),
        InputType::UnknownSegwit
    );
}

#[test]
fn other_witness_shapes_are_unknown_segwit() {
    let t = detect_input_type(&input(0, vec![item(63)]));
    assert_eq!(t, InputType::UnknownSegwit);
    assert_eq!(t.label(), "segwit (unknown subtype)");
    assert_eq!(detect_input_type(&input(0, vec![item(0)])), InputType::UnknownSegwit);
    assert_eq!(detect_input_type(&input(0, vec![led(0xc0, 33)])), InputType::UnknownSegwit);
    assert_eq!(
        detect_input_type(&input(0, vec![item(72), item(0)])),
        InputType::UnknownSegwit
    );
    assert_eq!(
        detect_input_type(&input(0, vec![item(1), item(2), item(33)])),
        InputType::UnknownSegwit
    );
}

#[test]
fn witness_decides_before_the_script() {
    assert_eq!(detect_input_type(&input(107, vec![item(64)])), InputType::TaprootKeyPath);
    assert_eq!(detect_input_type(&input(107, vec![item(3)])), InputType::UnknownSegwit);
}

#[test]
fn legacy_script_length_bounds_are_exclusive() {
    assert_eq!(detect_input_type(&input(100, vec![])), InputType::LegacyScriptHashOrOther);
    assert_eq!(detect_input_type(&input(101, vec![])), InputType::LegacyPublicKeyHash);
    assert_eq!(detect_input_type(&input(149, vec![])), InputType::LegacyPublicKeyHash);
    assert_eq!(detect_input_type(&input(150, vec![])), InputType::LegacyScriptHashOrOther);
    assert_eq!(detect_input_type(&input(1, vec![])), InputType::LegacyScriptHashOrOther);
    assert_eq!(
        InputType::LegacyScriptHashOrOther.label(),
        "pay-to-script-hash or other legacy"
    );
}

#[test]
fn no_witness_and_no_script_is_unknown() {
    let t = detect_input_type(&input(0, vec![]));
    assert_eq!(t, InputType::Unknown);
    assert_eq!(t.label(), "unknown");
}

#[test]
fn witness_item_kinds_by_length() {
    assert_eq!(decode_witness_item(&item(0)), WitnessItemKind::Empty);
    assert_eq!(decode_witness_item(&item(33)), WitnessItemKind::PublicKey);
    assert_eq!(decode_witness_item(&item(65)), WitnessItemKind::PublicKey);
    assert_eq!(decode_witness_item(&item(64)), WitnessItemKind::FixedWidthSignature);
    for len in 70..=73 {
        assert_eq!(decode_witness_item(&item(len)), WitnessItemKind::DerSignature);
    }
    assert_eq!(decode_witness_item(&item(1)), WitnessItemKind::Data { len: 1 });
    assert_eq!(decode_witness_item(&item(32)), WitnessItemKind::Data { len: 32 });
    assert_eq!(decode_witness_item(&item(69)), WitnessItemKind::Data { len: 69 });
    assert_eq!(decode_witness_item(&item(74)), WitnessItemKind::Data { len: 74 });
    assert_eq!(decode_witness_item(&item(75)), WitnessItemKind::Data { len: 75 });
    assert_eq!(decode_witness_item(&item(76)), WitnessItemKind::Data { len: 76 });
    assert_eq!(decode_witness_item(&item(100)), WitnessItemKind::Data { len: 100 });
    assert_eq!(decode_witness_item(&item(101)), WitnessItemKind::ScriptOrData { len: 101 });
    assert_eq!(decode_witness_item(&item(5000)), WitnessItemKind::ScriptOrData { len: 5000 });
}

#[test]
fn witness_item_labels() {
    assert_eq!(WitnessItemKind::Empty.label(), "empty witness item");
    assert_eq!(WitnessItemKind::PublicKey.label(), "public key");
    assert_eq!(WitnessItemKind::DerSignature.label(), "signature (DER-encoded)");
    assert_eq!(WitnessItemKind::FixedWidthSignature.label(), "signature (fixed-width)");
    assert_eq!(WitnessItemKind::Data { len: 7 }.label(), "data (7 bytes)");
    assert_eq!(WitnessItemKind::Data { len: 100 }.label(), "data (100 bytes)");
    assert_eq!(
        WitnessItemKind::ScriptOrData { len: 1234 }.label(),
        "script or data (1234 bytes)"
    );
    assert_eq!(decode_witness_item(&item(253)).label(), "script or data (253 bytes)");
}

fn output(script: &[u8]) -> TxOut {
    TxOut { value: 240, script_pubkey: script.to_vec() }
}

#[test]
fn anchor_is_the_exact_four_bytes() {
    assert!(is_ephemeral_anchor(&output(&[0x51, 0x02, 0x4e, 0x73])));
    assert!(is_ephemeral_anchor(&TxOut { value: 0, script_pubkey: vec![0x51, 0x02, 0x4e, 0x73] }));
}

#[test]
fn four_bytes_that_differ_in_one_place_are_no_anchor() {
    let anchor = [0x51u8, 0x02, 0x4e, 0x73];
    for place in 0..4 {
        for bit in 0..8 {
            let mut script = anchor;
            script[place] ^= 1 << bit;
            assert!(!is_ephemeral_anchor(&output(&script)));
        }
    }
}

#[test]
fn another_length_is_no_anchor() {
    assert!(!is_ephemeral_anchor(&output(&[])));
    assert!(!is_ephemeral_anchor(&output(&[0x51])));
    assert!(!is_ephemeral_anchor(&output(&[0x51, 0x02, 0x4e])));
    assert!(!is_ephemeral_anchor(&output(&[0x51, 0x02, 0x4e, 0x73, 0x00])));
    assert!(!is_ephemeral_anchor(&output(&[0x00, 0x51, 0x02, 0x4e, 0x73])));
}

#[test]
fn anchor_has_one_fixed_address() {
    assert_eq!(anchor_address(), "bc1pfeessrawgf");
}
