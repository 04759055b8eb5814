use block_indexer::{decode_fields, encode_fields, IndexerError, FIELD_COUNT, MAX_FIELD_LEN};

fn sample_fields() -> Vec<Vec<u8>> {
    vec![
        vec![0xab, 0x12],
        vec![],
        vec![1, 2, 3],
        vec![7; 300],
        vec![0, 100],
        vec![0, 0x10, 0x27],
        vec![0, 5],
        vec![9, 9, 9, 9],
        vec![0xff; 70_000],
        vec![0, 100],
    ]
}

fn prefix(n: u32) -> Vec<u8> {
    n.to_le_bytes().to_vec()
}

#[test]
fn round_trip_of_ten_fields() {
    let fields = sample_fields();
    let buf = encode_fields(&fields);
    assert_eq!(decode_fields(&buf), Ok(fields));
}

#[test]
fn round_trip_with_largest_field() {
    let mut fields = sample_fields();
    fields[3] = vec![0x5a; MAX_FIELD_LEN];
    let buf = encode_fields(&fields);
    assert_eq!(decode_fields(&buf), Ok(fields));
}

#[test]
fn encoding_layout_is_length_then_payload() {
    let fields: Vec<Vec<u8>> = (0..FIELD_COUNT as u8).map(|i| vec![i; i as usize]).collect();
    let buf = encode_fields(&fields);
    assert_eq!(&buf[0..4], &[0, 0, 0, 0]);
    assert_eq!(&buf[4..8], &[1, 0, 0, 0]);
    assert_eq!(buf[8], 1);
    assert_eq!(&buf[9..13], &[2, 0, 0, 0]);
    assert_eq!(buf.len(), 4 * FIELD_COUNT + 45);
}

#[test]
fn trailing_bytes_are_ignored() {
    let fields = sample_fields();
    let mut buf = encode_fields(&fields);
    buf.extend_from_slice(&[0xde, 0xad, 0xbe, 0xef, 1]);
    assert_eq!(decode_fields(&buf), Ok(fields));
}

#[test]
fn every_cut_inside_an_entry_is_truncated() {
    let fields: Vec<Vec<u8>> = (0..FIELD_COUNT as u8).map(|i| vec![i; 3]).collect();
    let buf = encode_fields(&fields);
    let entry = 4 + 3;
    for k in 0..buf.len() {
        let expected = if k % entry == 0 {
            IndexerError::WrongFieldCount
        } else {
            IndexerError::Truncated
        };
        assert_eq!(decode_fields(&buf[..k]), Err(expected), "cut at {}", k);
    }
}

#[test]
fn empty_buffer_has_too_few_entries() {
    assert_eq!(decode_fields(&[]), Err(IndexerError::WrongFieldCount));
}

#[test]
fn nine_entries_are_too_few() {
    let fields = sample_fields();
    let buf = encode_fields(&fields[..9].to_vec());
    assert_eq!(decode_fields(&buf), Err(IndexerError::WrongFieldCount));
}

#[test]
fn short_length_prefix_is_truncated() {
    assert_eq!(decode_fields(&[5, 0]), Err(IndexerError::Truncated));
}

#[test]
fn oversized_prefix_is_refused_without_payload() {
    let buf = prefix(MAX_FIELD_LEN as u32 + 1);
    assert_eq!(decode_fields(&buf), Err(IndexerError::FieldTooLarge));
}

#[test]
fn oversized_prefix_after_good_entries() {
    let fields = sample_fields();
    let mut buf = encode_fields(&fields[..4].to_vec());
    buf.extend_from_slice(&prefix(u32::MAX));
    buf.extend_from_slice(&[1, 2, 3]);
    assert_eq!(decode_fields(&buf), Err(IndexerError::FieldTooLarge));
}

#[test]
fn ceiling_itself_is_accepted_but_payload_must_be_present() {
    let mut buf = prefix(MAX_FIELD_LEN as u32);
    buf.extend_from_slice(&[0; 10]);
    assert_eq!(decode_fields(&buf), Err(IndexerError::Truncated));
}
