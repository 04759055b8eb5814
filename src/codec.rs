//! The on-disk layout of one record: a run of entries, each a four-byte
//! little-endian length followed by that many payload bytes.

use vstd::prelude::*;
use vstd::slice::{slice_subrange, slice_to_vec};
use crate::error::IndexerError;

verus! {

/// Number of entries in the layout of one record.
pub const FIELD_COUNT: usize = 10;

/// Largest payload one entry may carry, in bytes.
pub const MAX_FIELD_LEN: usize = 200_000;

/// What a vector of byte vectors holds.
pub open spec fn views(v: Seq<Vec<u8>>) -> Seq<Seq<u8>> {
    v.map_values(|f: Vec<u8>| f@)
}

/// The little-endian number held by the four bytes of `b` from `at`.
pub open spec fn prefix_value(b: Seq<u8>, at: int) -> nat {
    (b[at] + 256 * (b[at + 1] + 256 * (b[at + 2] + 256 * b[at + 3]))) as nat
}

/// The four little-endian bytes of `n`.
pub open spec fn prefix_bytes(n: nat) -> Seq<u8> {
    let n1 = n / 256;
    let n2 = n1 / 256;
    let n3 = n2 / 256;
    seq![(n % 256) as u8, (n1 % 256) as u8, (n2 % 256) as u8, (n3 % 256) as u8]
}

/// One entry: the payload's length, then the payload.
pub open spec fn entry(f: Seq<u8>) -> Seq<u8> {
    prefix_bytes(f.len()) + f
}

/// The entries of `fs`, one after another, in order.
pub open spec fn encode_spec(fs: Seq<Seq<u8>>) -> Seq<u8>
    decreases fs.len(),
{
    if fs.len() == 0 {
        Seq::empty()
    } else {
        encode_spec(fs.drop_last()) + entry(fs.last())
    }
}

/// Every payload of `fs` is within the per-field ceiling.
pub open spec fn fields_fit(fs: Seq<Seq<u8>>) -> bool {
    forall|i: int| 0 <= i < fs.len() ==> #[trigger] fs[i].len() <= MAX_FIELD_LEN
}

/// `front` followed by what `r` holds, or the error of `r`.
pub open spec fn prepend(
    front: Seq<Seq<u8>>,
    r: Result<Seq<Seq<u8>>, IndexerError>,
) -> Result<Seq<Seq<u8>>, IndexerError> {
    match r {
        Ok(rest) => Ok(front + rest),
        Err(e) => Err(e),
    }
}

/// The payload length of the entry that starts at `pos`, or why no whole
/// entry starts there.
///
/// A buffer that ends exactly where an entry would start holds too few
/// entries; one that ends inside an entry is truncated. The ceiling is
/// checked before the payload's presence.
pub open spec fn entry_len(buf: Seq<u8>, pos: nat) -> Result<nat, IndexerError> {
    if pos >= buf.len() {
        Err(IndexerError::WrongFieldCount)
    } else if buf.len() < pos + 4 {
        Err(IndexerError::Truncated)
    } else {
        let len = prefix_value(buf, pos as int);
        if len > MAX_FIELD_LEN {
            Err(IndexerError::FieldTooLarge)
        } else if buf.len() < pos + 4 + len {
            Err(IndexerError::Truncated)
        } else {
            Ok(len)
        }
    }
}

/// Reading `count` entries of `buf` from position `pos`, one after another.
pub open spec fn parse_entries(buf: Seq<u8>, pos: nat, count: nat) -> Result<
    Seq<Seq<u8>>,
    IndexerError,
>
    decreases count,
{
    if count == 0 {
        Ok(Seq::empty())
    } else {
        match entry_len(buf, pos) {
            Err(e) => Err(e),
            Ok(len) => prepend(
                seq![buf.subrange(pos + 4int, pos + 4int + len)],
                parse_entries(buf, (pos + 4 + len) as nat, (count - 1) as nat),
            ),
        }
    }
}

/// Frames the entry that starts at `offset`: where its payload starts, and
/// its length.
pub fn read_entry(buf: &[u8], offset: usize) -> (r: Result<(usize, usize), IndexerError>)
    requires
        offset <= buf@.len(),
    ensures
        match entry_len(buf@, offset as nat) {
            Ok(len) => r is Ok && r->Ok_0.0 == offset + 4 && r->Ok_0.1 == len,
            Err(e) => r == Err::<(usize, usize), _>(e),
        },
{
    let n = buf.len();
    if offset == n {
        return Err(IndexerError::WrongFieldCount);
    }
    if n - offset < 4 {
        return Err(IndexerError::Truncated);
    }
    let len: u64 = buf[offset] as u64 + 256 * (buf[offset + 1] as u64 + 256 * (buf[offset + 2]
        as u64 + 256 * buf[offset + 3] as u64));
    assert(len as nat == prefix_value(buf@, offset as int));
    if len > MAX_FIELD_LEN as u64 {
        return Err(IndexerError::FieldTooLarge);
    }
    let len = len as usize;
    if n - (offset + 4) < len {
        return Err(IndexerError::Truncated);
    }
    Ok((offset + 4, len))
}

/// The fields of a record buffer; bytes after the last entry are ignored.
pub open spec fn decode_spec(buf: Seq<u8>) -> Result<Seq<Seq<u8>>, IndexerError> {
    parse_entries(buf, 0, FIELD_COUNT as nat)
}

/// Splits a record buffer into the payloads of its entries.
pub fn decode_fields(buf: &[u8]) -> (r: Result<Vec<Vec<u8>>, IndexerError>)
    ensures
        match r {
            Ok(v) => decode_spec(buf@) == Ok::<_, IndexerError>(views(v@)),
            Err(e) => decode_spec(buf@) == Err::<Seq<Seq<u8>>, _>(e),
        },
{
    let mut fields: Vec<Vec<u8>> = Vec::new();
    let mut offset: usize = 0;
    let mut i: usize = 0;
    while i < FIELD_COUNT
        invariant
            i <= FIELD_COUNT,
            offset <= buf@.len(),
            decode_spec(buf@) == prepend(
                views(fields@),
                parse_entries(buf@, offset as nat, (FIELD_COUNT - i) as nat),
            ),
        decreases FIELD_COUNT - i,
    {
        let (start, len) = match read_entry(buf, offset) {
            Ok(p) => p,
            Err(e) => return Err(e),
        };
        assert(entry_len(buf@, offset as nat) == Ok::<nat, IndexerError>(len as nat));
        let n = buf.len();
        assert(start + len <= n);
        let field = slice_to_vec(slice_subrange(buf, start, start + len));
        let ghost old_fields = fields@;
        let ghost rest = parse_entries(buf@, (start + len) as nat, (FIELD_COUNT - i - 1) as nat);
        fields.push(field);
        proof {
            assert(views(fields@) =~= views(old_fields).push(field@));
            if let Ok(tail) = rest {
                assert(views(old_fields) + (seq![field@] + tail) =~= views(fields@) + tail);
            }
        }
        offset = start + len;
        i = i + 1;
    }
    assert(views(fields@) + Seq::empty() =~= views(fields@));
    Ok(fields)
}

/// Writes each payload of `fields` as one entry, in order.
pub fn encode_fields(fields: &Vec<Vec<u8>>) -> (r: Vec<u8>)
    requires
        fields_fit(views(fields@)),
    ensures
        r@ == encode_spec(views(fields@)),
{
    let mut out: Vec<u8> = Vec::new();
    let mut i: usize = 0;
    while i < fields.len()
        invariant
            i <= fields@.len(),
            fields_fit(views(fields@)),
            out@ == encode_spec(views(fields@).take(i as int)),
        decreases fields@.len() - i,
    {
        let f = &fields[i];
        let n: usize = f.len();
        assert(views(fields@)[i as int] == f@);
        let n1: usize = n / 256;
        let n2: usize = n1 / 256;
        let n3: usize = n2 / 256;
        let ghost before = out@;
        out.push((n % 256) as u8);
        out.push((n1 % 256) as u8);
        out.push((n2 % 256) as u8);
        out.push((n3 % 256) as u8);
        assert(out@ =~= before + prefix_bytes(n as nat));
        let mut j: usize = 0;
        while j < n
            invariant
                j <= n,
                n == f@.len(),
                out@ == before + prefix_bytes(n as nat) + f@.take(j as int),
            decreases n - j,
        {
            out.push(f[j]);
            j = j + 1;
            assert(out@ =~= before + prefix_bytes(n as nat) + f@.take(j as int));
        }
        proof {
            let taken = views(fields@).take(i + 1);
            assert(taken.drop_last() =~= views(fields@).take(i as int));
            assert(f@.take(n as int) =~= f@);
            assert(out@ =~= before + entry(f@));
        }
        i = i + 1;
    }
    assert(views(fields@).take(i as int) =~= views(fields@));
    out
}

/// Four bytes written by `prefix_bytes` read back as the same number.
proof fn lemma_prefix_read(buf: Seq<u8>, at: int, n: nat)
    requires
        n < 0x1_0000_0000,
        0 <= at,
        at + 4 <= buf.len(),
        forall|k: int| 0 <= k < 4 ==> buf[at + k] == #[trigger] prefix_bytes(n)[k],
    ensures
        prefix_value(buf, at) == n,
{
    let n1 = n / 256;
    let n2 = n1 / 256;
    let n3 = n2 / 256;
    assert(buf[at + 0] == prefix_bytes(n)[0]);
    assert(buf[at + 1] == prefix_bytes(n)[1]);
    assert(buf[at + 2] == prefix_bytes(n)[2]);
    assert(buf[at + 3] == prefix_bytes(n)[3]);
    vstd::arithmetic::div_mod::lemma_fundamental_div_mod(n as int, 256);
    vstd::arithmetic::div_mod::lemma_fundamental_div_mod(n1 as int, 256);
    vstd::arithmetic::div_mod::lemma_fundamental_div_mod(n2 as int, 256);
    vstd::arithmetic::div_mod::lemma_fundamental_div_mod(n3 as int, 256);
}

/// Encoding two runs of payloads gives the two encodings, one after the other.
proof fn lemma_encode_concat(a: Seq<Seq<u8>>, b: Seq<Seq<u8>>)
    ensures
        encode_spec(a + b) == encode_spec(a) + encode_spec(b),
    decreases b.len(),
{
    if b.len() == 0 {
        assert(a + b =~= a);
        assert(encode_spec(a) + encode_spec(b) =~= encode_spec(a));
    } else {
        lemma_encode_concat(a, b.drop_last());
        assert((a + b).drop_last() =~= a + b.drop_last());
        assert((a + b).last() == b.last());
        assert(encode_spec(a) + encode_spec(b) =~= encode_spec(a) + encode_spec(b.drop_last())
            + entry(b.last()));
    }
}

/// Reading entries over an encoded run yields that run first, then whatever
/// follows it.
#[verifier::rlimit(40)]
proof fn lemma_parse_encoded(p: Seq<u8>, fs: Seq<Seq<u8>>, t: Seq<u8>, n: nat)
    requires
        fields_fit(fs),
        fs.len() <= n,
    ensures
        parse_entries(p + encode_spec(fs) + t, p.len(), n) == prepend(
            fs,
            parse_entries(
                p + encode_spec(fs) + t,
                p.len() + encode_spec(fs).len(),
                (n - fs.len()) as nat,
            ),
        ),
    decreases fs.len(),
{
    let buf = p + encode_spec(fs) + t;
    if fs.len() == 0 {
        assert(encode_spec(fs).len() == 0);
        let r = parse_entries(buf, p.len(), n);
        if let Ok(rest) = r {
            assert(fs + rest =~= rest);
        }
    } else {
        let fs0 = fs.drop_last();
        let f = fs.last();
        assert(fields_fit(fs0)) by {
            assert forall|i: int| 0 <= i < fs0.len() implies #[trigger] fs0[i].len()
                <= MAX_FIELD_LEN by {
                assert(fs0[i] == fs[i]);
            }
        }
        assert(f.len() <= MAX_FIELD_LEN) by {
            assert(fs[fs.len() - 1] == f);
        }
        let t0 = entry(f) + t;
        assert(buf =~= p + encode_spec(fs0) + t0);
        lemma_parse_encoded(p, fs0, t0, n);
        let q = p.len() + encode_spec(fs0).len();
        let c = (n - fs0.len()) as nat;
        assert forall|k: int| 0 <= k < 4 implies buf[q + k] == #[trigger] prefix_bytes(
            f.len(),
        )[k] by {
            assert(buf[q + k] == t0[k]);
        }
        lemma_prefix_read(buf, q as int, f.len());
        assert(buf.subrange(q + 4int, q + 4int + f.len()) =~= f);
        assert(encode_spec(fs).len() == encode_spec(fs0).len() + 4 + f.len());
        let x = parse_entries(buf, (q + 4 + f.len()) as nat, (c - 1) as nat);
        assert(parse_entries(buf, q, c) == prepend(seq![f], x));
        if let Ok(rest) = x {
            assert(fs0 + (seq![f] + rest) =~= fs + rest);
        }
    }
}

/// Decoding the encoding of ten payloads, each within the ceiling, gives
/// those payloads back.
pub proof fn law_round_trip(fields: Seq<Seq<u8>>)
    requires
        fields.len() == FIELD_COUNT,
        fields_fit(fields),
    ensures
        decode_spec(encode_spec(fields)) == Ok::<_, IndexerError>(fields),
{
    law_trailing_bytes_ignored(fields, Seq::empty());
    assert(encode_spec(fields) + Seq::<u8>::empty() =~= encode_spec(fields));
}

/// Bytes after the last of ten well-formed entries do not change what is
/// decoded.
pub proof fn law_trailing_bytes_ignored(fields: Seq<Seq<u8>>, trailing: Seq<u8>)
    requires
        fields.len() == FIELD_COUNT,
        fields_fit(fields),
    ensures
        decode_spec(encode_spec(fields) + trailing) == Ok::<_, IndexerError>(fields),
{
    let p = Seq::<u8>::empty();
    assert(p + encode_spec(fields) + trailing =~= encode_spec(fields) + trailing);
    lemma_parse_encoded(p, fields, trailing, FIELD_COUNT as nat);
    assert(fields + Seq::empty() =~= fields);
}

/// A buffer that holds fewer well-formed entries than a record needs, and
/// nothing after them, is refused for its entry count.
pub proof fn law_too_few_entries(fields: Seq<Seq<u8>>)
    requires
        fields.len() < FIELD_COUNT,
        fields_fit(fields),
    ensures
        decode_spec(encode_spec(fields)) == Err::<Seq<Seq<u8>>, _>(IndexerError::WrongFieldCount),
{
    let p = Seq::<u8>::empty();
    let t = Seq::<u8>::empty();
    assert(p + encode_spec(fields) + t =~= encode_spec(fields));
    lemma_parse_encoded(p, fields, t, FIELD_COUNT as nat);
}

/// A record cut inside one of its entries, after the entry's first byte and
/// before its last, is refused as truncated.
pub proof fn law_truncated(fields: Seq<Seq<u8>>, i: int, j: int)
    requires
        fields.len() == FIELD_COUNT,
        fields_fit(fields),
        0 <= i < FIELD_COUNT,
        0 < j < entry(fields[i]).len(),
    ensures
        decode_spec(encode_spec(fields).take(encode_spec(fields.take(i)).len() + j)) == Err::<
            Seq<Seq<u8>>,
            _,
        >(IndexerError::Truncated),
{
    let front = fields.take(i);
    let fi = fields[i];
    let back = fields.skip(i + 1);
    assert(fields =~= front + (seq![fi] + back));
    lemma_encode_concat(front, seq![fi] + back);
    lemma_encode_concat(seq![fi], back);
    assert(seq![fi].drop_last() =~= Seq::<Seq<u8>>::empty());
    assert(seq![fi].last() == fi);
    assert(encode_spec(Seq::<Seq<u8>>::empty()) =~= Seq::<u8>::empty());
    assert(encode_spec(seq![fi]) =~= Seq::<u8>::empty() + entry(fi));
    assert(encode_spec(seq![fi]) =~= entry(fi));
    let b = encode_spec(front).len();
    let cut = entry(fi).take(j);
    let buf = encode_spec(fields).take(b + j);
    let p = Seq::<u8>::empty();
    assert(buf =~= p + encode_spec(front) + cut);
    assert(fields_fit(front)) by {
        assert forall|k: int| 0 <= k < front.len() implies #[trigger] front[k].len()
            <= MAX_FIELD_LEN by {
            assert(front[k] == fields[k]);
        }
    }
    lemma_parse_encoded(p, front, cut, FIELD_COUNT as nat);
    if j >= 4 {
        assert forall|k: int| 0 <= k < 4 implies buf[b + k] == #[trigger] prefix_bytes(
            fi.len(),
        )[k] by {
            assert(buf[b + k] == cut[k]);
        }
        lemma_prefix_read(buf, b as int, fi.len());
    }
}

/// An entry whose length prefix is above the ceiling is refused as too
/// large, whatever follows the prefix.
pub proof fn law_oversized_entry(fields: Seq<Seq<u8>>, len: nat, rest: Seq<u8>)
    requires
        fields.len() < FIELD_COUNT,
        fields_fit(fields),
        MAX_FIELD_LEN < len < 0x1_0000_0000,
    ensures
        decode_spec(encode_spec(fields) + prefix_bytes(len) + rest) == Err::<Seq<Seq<u8>>, _>(
            IndexerError::FieldTooLarge,
        ),
{
    let p = Seq::<u8>::empty();
    let t = prefix_bytes(len) + rest;
    let buf = encode_spec(fields) + prefix_bytes(len) + rest;
    assert(buf =~= p + encode_spec(fields) + t);
    lemma_parse_encoded(p, fields, t, FIELD_COUNT as nat);
    let b = encode_spec(fields).len();
    assert forall|k: int| 0 <= k < 4 implies buf[b + k] == #[trigger] prefix_bytes(len)[k] by {
        assert(buf[b + k] == t[k]);
    }
    lemma_prefix_read(buf, b as int, len);
}

} // verus!
