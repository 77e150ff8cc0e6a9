use btc_tx_decoder::cursor::ByteCursor;
use btc_tx_decoder::decoder::read_marker;
use btc_tx_decoder::decoder::read_prefixed;
use btc_tx_decoder::decoder::read_stack;
use btc_tx_decoder::error::DecodeError;
use btc_tx_decoder::error::Field;
use btc_tx_decoder::varint::compact_size;
use btc_tx_decoder::varint::read_compact;

#[test]
fn cursor_reads_advance_by_the_width_of_the_field() {
    let bytes = [0x01, 0x02, 0x03, 0x04, 0x05, 0x06, 0x07, 0x08, 0x09, 0x0a, 0x0b, 0x0c, 0x0d,
        0x0e, 0x0f];
    let mut cursor = ByteCursor::new(&bytes);
    assert_eq!(cursor.position(), 0);
    assert_eq!(cursor.remaining(), 15);
    assert_eq!(cursor.read_u8(Field::Version), Ok(0x01));
    assert_eq!(cursor.position(), 1);
    assert_eq!(cursor.read_u16_le(Field::Version), Ok(0x0302));
    assert_eq!(cursor.position(), 3);
    assert_eq!(cursor.read_u32_le(Field::Version), Ok(0x0706_0504));
    assert_eq!(cursor.position(), 7);
    assert_eq!(cursor.read_u64_le(Field::Value), Ok(0x0f0e_0d0c_0b0a_0908));
    assert_eq!(cursor.position(), 15);
    assert_eq!(cursor.remaining(), 0);
}

#[test]
fn cursor_reads_fail_without_moving() {
    let bytes = [0xaa, 0xbb, 0xcc];
    let mut cursor = ByteCursor::new(&bytes);
    assert_eq!(
        cursor.read_u32_le(Field::LockTime),
        Err(DecodeError::TruncatedInput { field: Field::LockTime })
    );
    assert_eq!(cursor.position(), 0);
    assert_eq!(
        cursor.read_u64_le(Field::Value),
        Err(DecodeError::TruncatedInput { field: Field::Value })
    );
    assert_eq!(cursor.position(), 0);
    assert_eq!(
        cursor.read_bytes(4, Field::ScriptSig),
        Err(DecodeError::TruncatedInput { field: Field::ScriptSig })
    );
    assert_eq!(
        cursor.read_bytes(u64::MAX, Field::ScriptSig),
        Err(DecodeError::TruncatedInput { field: Field::ScriptSig })
    );
    assert_eq!(
        cursor.read_array_32(Field::PreviousTxid),
        Err(DecodeError::TruncatedInput { field: Field::PreviousTxid })
    );
    assert_eq!(cursor.position(), 0);
    assert_eq!(cursor.read_bytes(3, Field::ScriptSig), Ok(vec![0xaa, 0xbb, 0xcc]));
    assert_eq!(cursor.position(), 3);
    assert_eq!(cursor.read_bytes(0, Field::ScriptSig), Ok(vec![]));
    assert_eq!(
        cursor.read_u8(Field::Sequence),
        Err(DecodeError::TruncatedInput { field: Field::Sequence })
    );
    assert_eq!(
        cursor.read_u16_le(Field::Sequence),
        Err(DecodeError::TruncatedInput { field: Field::Sequence })
    );
    assert_eq!(cursor.position(), 3);
}

#[test]
fn cursor_reads_thirty_two_bytes_in_order() {
    let mut bytes = [0u8; 40];
    for k in 0..40 {
        bytes[k] = k as u8;
    }
    let mut cursor = ByteCursor::new(&bytes);
    assert!(cursor.skip(3));
    let a = cursor.read_array_32(Field::PreviousTxid).unwrap();
    for k in 0..32 {
        assert_eq!(a[k], (k + 3) as u8);
    }
    assert_eq!(cursor.position(), 35);
}

#[test]
fn cursor_peeks_and_skips() {
    let bytes = [0x10, 0x20, 0x30];
    let mut cursor = ByteCursor::new(&bytes);
    assert_eq!(cursor.peek(0), Some(0x10));
    assert_eq!(cursor.peek(2), Some(0x30));
    assert_eq!(cursor.peek(3), None);
    assert_eq!(cursor.peek(usize::MAX), None);
    assert_eq!(cursor.position(), 0);
    assert!(cursor.skip(2));
    assert_eq!(cursor.position(), 2);
    assert_eq!(cursor.peek(0), Some(0x30));
    assert_eq!(cursor.peek(1), None);
    assert!(!cursor.skip(2));
    assert_eq!(cursor.position(), 2);
    assert!(cursor.skip(1));
    assert!(cursor.skip(0));
    assert_eq!(cursor.remaining(), 0);
}

fn compact(bytes: &[u8]) -> (Result<u64, DecodeError>, usize) {
    let mut cursor = ByteCursor::new(bytes);
    let r = read_compact(&mut cursor, Field::InputCount);
    (r, cursor.position())
}

#[test]
fn compact_integer_has_four_forms() {
    assert_eq!(compact(&[0x00]), (Ok(0), 1));
    assert_eq!(compact(&[0xfc, 0xff]), (Ok(0xfc), 1));
    assert_eq!(compact(&[0xfd, 0xfd, 0x00]), (Ok(0xfd), 3));
    assert_eq!(compact(&[0xfd, 0x34, 0x12, 0xff]), (Ok(0x1234), 3));
    assert_eq!(compact(&[0xfe, 0x78, 0x56, 0x34, 0x12]), (Ok(0x1234_5678), 5));
    assert_eq!(
        compact(&[0xff, 0xef, 0xcd, 0xab, 0x89, 0x67, 0x45, 0x23, 0x01]),
        (Ok(0x0123_4567_89ab_cdef), 9)
    );
    assert_eq!(compact(&[0xff; 9]), (Ok(u64::MAX), 9));
}

#[test]
fn compact_integer_accepts_a_longer_form_than_needed() {
    assert_eq!(compact(&[0xfd, 0x05, 0x00]), (Ok(5), 3));
    assert_eq!(compact(&[0xfe, 0x05, 0x00, 0x00, 0x00]), (Ok(5), 5));
    assert_eq!(compact(&[0xff, 0x05, 0, 0, 0, 0, 0, 0, 0]), (Ok(5), 9));
}

#[test]
fn compact_integer_runs_out_of_input() {
    let truncated = Err(DecodeError::TruncatedInput { field: Field::InputCount });
    assert_eq!(compact(&[]).0, truncated);
    assert_eq!(compact(&[0xfd]).0, truncated);
    assert_eq!(compact(&[0xfd, 0x01]).0, truncated);
    assert_eq!(compact(&[0xfe, 0x01, 0x02, 0x03]).0, truncated);
    assert_eq!(compact(&[0xff, 1, 2, 3, 4, 5, 6, 7]).0, truncated);
}

#[test]
fn compact_size_is_the_length_of_the_shortest_form() {
    assert_eq!(compact_size(0), 1);
    assert_eq!(compact_size(0xfc), 1);
    assert_eq!(compact_size(0xfd), 3);
    assert_eq!(compact_size(0xffff), 3);
    assert_eq!(compact_size(0x1_0000), 5);
    assert_eq!(compact_size(0xffff_ffff), 5);
    assert_eq!(compact_size(0x1_0000_0000), 9);
    assert_eq!(compact_size(u64::MAX), 9);
}

#[test]
fn marker_is_consumed_only_when_it_is_zero_one() {
    let mut cursor = ByteCursor::new(&[0x00, 0x01, 0x05]);
    assert_eq!(read_marker(&mut cursor), Ok(true));
    assert_eq!(cursor.position(), 2);

    let mut cursor = ByteCursor::new(&[0x00, 0x00, 0x05]);
    assert_eq!(read_marker(&mut cursor), Ok(false));
    assert_eq!(cursor.position(), 0);

    let mut cursor = ByteCursor::new(&[0x01, 0x01, 0x05]);
    assert_eq!(read_marker(&mut cursor), Ok(false));
    assert_eq!(cursor.position(), 0);

    let mut cursor = ByteCursor::new(&[0x00, 0x07]);
    assert_eq!(read_marker(&mut cursor), Err(DecodeError::UnsupportedEncoding { flag: 7 }));

    let mut cursor = ByteCursor::new(&[0x00]);
    assert_eq!(read_marker(&mut cursor), Ok(false));
    assert_eq!(cursor.position(), 0);

    let mut cursor = ByteCursor::new(&[]);
    assert_eq!(read_marker(&mut cursor), Ok(false));
}

#[test]
fn prefixed_bytes_and_stacks_are_read_in_order() {
    let bytes = [0x03, 0xaa, 0xbb, 0xcc, 0x02, 0x01, 0x11, 0x00];
    let mut cursor = ByteCursor::new(&bytes);
    assert_eq!(
        read_prefixed(&mut cursor, Field::ScriptSigLength, Field::ScriptSig),
        Ok(vec![0xaa, 0xbb, 0xcc])
    );
    assert_eq!(cursor.position(), 4);
    assert_eq!(read_stack(&mut cursor), Ok(vec![vec![0x11], vec![]]));
    assert_eq!(cursor.position(), 8);
    assert_eq!(
        read_stack(&mut cursor),
        Err(DecodeError::TruncatedInput { field: Field::WitnessItemCount })
    );
}
