use std::collections::HashMap;

use block_indexer::{
    digest_key, encode_fields, height_key, render_binary, render_block, Atom, Block, FieldCodec,
    IndexerError, Page,
};

/// A small serialization scheme: a leading 0 marks an unsigned integer in
/// little-endian bytes, a leading 1 any other value; nothing else is valid.
struct TaggedCodec {
    refuse_serialize: bool,
}

impl FieldCodec<Vec<u8>> for TaggedCodec {
    fn deserialize(&mut self, bytes: &[u8]) -> Option<Vec<u8>> {
        match bytes.first() {
            Some(0) | Some(1) => Some(bytes.to_vec()),
            _ => None,
        }
    }

    fn serialize(&mut self, value: &Vec<u8>) -> Option<Vec<u8>> {
        if self.refuse_serialize {
            None
        } else {
            Some(value.clone())
        }
    }

    fn as_atom(&mut self, value: &Vec<u8>) -> Option<Atom> {
        if value[0] == 0 {
            Some(Atom::Indirect(value[1..].to_vec()))
        } else {
            None
        }
    }

    fn debug_form(&mut self, value: &Vec<u8>) -> String {
        format!("{:?}", value)
    }
}

fn codec() -> TaggedCodec {
    TaggedCodec { refuse_serialize: false }
}

fn record(digest: &[u8], height: u8) -> Vec<u8> {
    let mut d = vec![1];
    d.extend_from_slice(digest);
    let fields = vec![
        d,
        vec![1, 0xee],
        vec![1, 0x01, 0x02],
        vec![1, 0x03],
        vec![1, 0x04, 0x04],
        vec![0, 0x00, 0xf1, 0x53, 0x65],
        vec![0, 7],
        vec![1, 0x0f],
        vec![1, 0x10, 0x20],
        vec![0, height],
    ];
    encode_fields(&fields)
}

struct Store {
    heights: HashMap<Vec<u8>, Vec<u8>>,
    pages: HashMap<Vec<u8>, Vec<u8>>,
}

impl Store {
    fn by_height(&self, height: u64) -> Result<Option<Block>, IndexerError> {
        let digest = self.heights.get(&height_key(height)).cloned();
        let page = digest.as_ref().and_then(|d| self.pages.get(d).cloned());
        let mut c = codec();
        match Page::from_height_lookup(digest, page, &mut c)? {
            None => Ok(None),
            Some(page) => page.to_block(&mut c).map(Some),
        }
    }

    fn by_digest(&self, digest: &str) -> Result<Option<Block>, IndexerError> {
        let key = digest_key(digest)?;
        self.by_key(&key)
    }

    fn by_key(&self, key: &[u8]) -> Result<Option<Block>, IndexerError> {
        let mut c = codec();
        match Page::from_lookup(self.pages.get(key).cloned(), &mut c)? {
            None => Ok(None),
            Some(page) => page.to_block(&mut c).map(Some),
        }
    }
}

fn store() -> Store {
    let mut heights = HashMap::new();
    let mut pages = HashMap::new();
    heights.insert(b"100".to_vec(), vec![0xab, 0x12]);
    pages.insert(vec![0xab, 0x12], record(&[0xab, 0x12], 100));
    heights.insert(b"7".to_vec(), b"raw-digest".to_vec());
    pages.insert(b"raw-digest".to_vec(), record(b"raw-digest", 7));
    heights.insert(b"8".to_vec(), vec![0x99]);
    Store { heights, pages }
}

#[test]
fn block_at_height_and_by_marked_digest() {
    let s = store();
    let by_height = s.by_height(100).unwrap().unwrap();
    assert_eq!(by_height.height, "100");
    assert_eq!(by_height.digest, "01ab12");
    let by_digest = s.by_digest("0x_ab12").unwrap().unwrap();
    assert_eq!(by_height, by_digest);
    assert_eq!(s.by_height(101), Ok(None));
}

#[test]
fn rendered_fields_of_a_block() {
    let block = store().by_height(100).unwrap().unwrap();
    assert_eq!(block.parent, "010102");
    assert_eq!(block.tx_ids, "0103");
    assert_eq!(block.coinbase, "010404");
    assert_eq!(block.timestamp, "1700000000");
    assert_eq!(block.epoch_counter, "7");
    assert_eq!(block.target, "010f");
    assert_eq!(block.accumulated_work, "011020");
}

#[test]
fn numeric_field_that_is_no_atom_renders_a_diagnostic() {
    let mut c = codec();
    let fields: Vec<Vec<u8>> = (0..10).map(|_| vec![1, 5]).collect();
    let page = Page::from_bytes(&encode_fields(&fields), &mut c).unwrap();
    let block = page.to_block(&mut c).unwrap();
    assert_eq!(block.height, "invalid (not atom): [1, 5]");
    assert_eq!(block.digest, "0105");
}

#[test]
fn raw_digest_form_finds_the_same_block() {
    let s = store();
    let by_height = s.by_height(7).unwrap().unwrap();
    assert_eq!(s.by_digest("raw-digest").unwrap().unwrap(), by_height);
    assert_eq!(by_height.height, "7");
}

#[test]
fn missing_keys_are_empty_results() {
    let s = store();
    assert_eq!(s.by_height(0), Ok(None));
    assert_eq!(s.by_height(8), Ok(None));
    assert_eq!(s.by_digest("0x_0001"), Ok(None));
    assert_eq!(s.by_digest("nothing"), Ok(None));
}

#[test]
fn digest_keys() {
    assert_eq!(digest_key("0x_ab12"), Ok(vec![0xab, 0x12]));
    assert_eq!(digest_key("0x_AB12"), Ok(vec![0xab, 0x12]));
    assert_eq!(digest_key("0x_"), Ok(vec![]));
    assert_eq!(digest_key("ab12"), Ok(b"ab12".to_vec()));
    assert_eq!(digest_key("0x"), Ok(b"0x".to_vec()));
    assert_eq!(digest_key("0x_abc"), Err(IndexerError::InvalidKey));
    assert_eq!(digest_key("0x_zz"), Err(IndexerError::InvalidKey));
}

#[test]
fn height_keys_are_decimal_text() {
    assert_eq!(height_key(100), b"100".to_vec());
    assert_eq!(height_key(0), b"0".to_vec());
    assert_eq!(height_key(u64::MAX), b"18446744073709551615".to_vec());
}

#[test]
fn malformed_record_is_an_error() {
    let s = Store {
        heights: HashMap::new(),
        pages: [(vec![1], vec![3, 0, 0])].into_iter().collect(),
    };
    assert_eq!(s.by_digest("0x_01"), Err(IndexerError::Truncated));
}

#[test]
fn payload_the_scheme_refuses() {
    let mut fields: Vec<Vec<u8>> = (0..10).map(|_| vec![1]).collect();
    fields[6] = vec![2];
    let r = Page::from_bytes(&encode_fields(&fields), &mut codec());
    assert!(matches!(r, Err(IndexerError::DeserializeFailed)));
}

#[test]
fn field_that_cannot_be_serialized() {
    let fields: Vec<Vec<u8>> = (0..10).map(|_| vec![1]).collect();
    let page = Page::from_bytes(&encode_fields(&fields), &mut codec()).unwrap();
    let mut refusing = TaggedCodec { refuse_serialize: true };
    assert_eq!(page.to_block(&mut refusing), Err(IndexerError::EncodeFailed));
    assert_eq!(render_binary(None), Err(IndexerError::EncodeFailed));
    assert_eq!(render_binary(Some(vec![0x0a, 0xff])), Ok("0aff".to_string()));
}

#[test]
fn fields_by_name() {
    let fields: Vec<Vec<u8>> = (0..10u8).map(|i| vec![0, i]).collect();
    let mut c = codec();
    let page = Page::from_bytes(&encode_fields(&fields), &mut c).unwrap();
    assert_eq!(page.get_field("digest"), Ok(&vec![0, 0]));
    assert_eq!(page.get_field("parent"), Ok(&vec![0, 2]));
    assert_eq!(page.get_field("tx-ids"), Ok(&vec![0, 3]));
    assert_eq!(page.get_field("epoch-counter"), Ok(&vec![0, 6]));
    assert_eq!(page.get_field("accumulated-work"), Ok(&vec![0, 8]));
    assert_eq!(page.get_field("height"), Ok(&vec![0, 9]));
    assert_eq!(page.get_field("pow"), Err(IndexerError::InvalidKey));
    assert_eq!(page.format_as_ud("timestamp", &mut c), Ok("5".to_string()));
    assert_eq!(page.format_as_ud("msg", &mut c), Err(IndexerError::InvalidKey));
}

#[test]
fn rejected_payload_before_a_truncated_entry() {
    let mut buf = encode_fields(&vec![vec![2, 0]]);
    buf.extend_from_slice(&[9, 0, 0, 0, 1]);
    let r = Page::from_bytes(&buf, &mut codec());
    assert!(matches!(r, Err(IndexerError::DeserializeFailed)));
}

#[test]
fn truncated_entry_before_any_rejected_payload() {
    let mut buf = encode_fields(&vec![vec![1, 0]]);
    buf.extend_from_slice(&[9, 0, 0, 0, 2]);
    let r = Page::from_bytes(&buf, &mut codec());
    assert!(matches!(r, Err(IndexerError::Truncated)));
}

#[test]
fn height_of_two_to_the_seventy() {
    let mut fields: Vec<Vec<u8>> = (0..10).map(|_| vec![1, 3]).collect();
    fields[9] = vec![0, 0, 0, 0, 0, 0, 0, 0, 0, 0x40];
    let mut c = codec();
    let page = Page::from_bytes(&encode_fields(&fields), &mut c).unwrap();
    assert_eq!(page.to_block(&mut c).unwrap().height, "1180591620717411303424");
    assert_eq!(
        page.format_as_ud("height", &mut c),
        Ok("1180591620717411303424".to_string())
    );
    assert_eq!(
        page.format_as_ud("timestamp", &mut c),
        Ok("invalid (not atom): [1, 3]".to_string())
    );
}

#[test]
fn block_from_rendered_parts() {
    let block = render_block(
        Some(vec![0xab]),
        Some(vec![]),
        Some(vec![1, 2]),
        Some(vec![0xff]),
        (Some(Atom::Direct(1_700_000_000)), String::new()),
        (None, "cell".to_string()),
        Some(vec![0x10]),
        Some(vec![0, 1]),
        (Some(Atom::Indirect(vec![100])), String::new()),
    )
    .unwrap();
    assert_eq!(block.digest, "ab");
    assert_eq!(block.parent, "");
    assert_eq!(block.tx_ids, "0102");
    assert_eq!(block.coinbase, "ff");
    assert_eq!(block.timestamp, "1700000000");
    assert_eq!(block.epoch_counter, "invalid (not atom): cell");
    assert_eq!(block.target, "10");
    assert_eq!(block.accumulated_work, "0001");
    assert_eq!(block.height, "100");
}

#[test]
fn block_with_a_field_that_did_not_serialize() {
    let r = render_block(
        Some(vec![0xab]),
        Some(vec![]),
        Some(vec![1, 2]),
        Some(vec![0xff]),
        (Some(Atom::Direct(1)), String::new()),
        (Some(Atom::Direct(2)), String::new()),
        None,
        Some(vec![0, 1]),
        (Some(Atom::Direct(3)), String::new()),
    );
    assert_eq!(r, Err(IndexerError::EncodeFailed));
}
