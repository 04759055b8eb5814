//! The decoded view of one block record and its rendering for callers.

use vstd::prelude::*;
use vstd::string::{StrSliceExecFns, StringExecFns};
use crate::atom::{decimal, Atom};
use vstd::slice::slice_subrange;
use crate::codec::{decode_spec, entry_len, parse_entries, prepend, read_entry, FIELD_COUNT};
use crate::error::IndexerError;
use crate::hex_text::{hex_encode, hex_text};
use crate::index::{chained, found_bytes, record_result};

verus! {

/// The serialization scheme that record fields were written with. Callers
/// supply it; the record only ever hands it bytes or values of its own.
pub trait FieldCodec<V> {
    /// Reads one serialized value; `None` where the bytes hold none.
    fn deserialize(&mut self, bytes: &[u8]) -> Option<V>;

    /// Serializes a value; `None` where it cannot be done.
    fn serialize(&mut self, value: &V) -> Option<Vec<u8>>;

    /// The value as an unsigned integer, where it is one.
    fn as_atom(&mut self, value: &V) -> Option<Atom>;

    /// A diagnostic text form of the value.
    fn debug_form(&mut self, value: &V) -> String;
}

/// A block header: nine named fields, bound to the slots of a record. The
/// proof-of-work slot is read and left out.
pub struct Page<V> {
    pub digest: V,
    pub parent: V,
    pub tx_ids: V,
    pub coinbase: V,
    pub timestamp: V,
    pub epoch_counter: V,
    pub target: V,
    pub accumulated_work: V,
    pub height: V,
}

/// A block as callers see it: binary fields as hex text, counters in
/// decimal.
#[derive(Debug, PartialEq, Eq)]
pub struct Block {
    pub digest: String,
    pub parent: String,
    pub tx_ids: String,
    pub coinbase: String,
    pub timestamp: String,
    pub epoch_counter: String,
    pub target: String,
    pub accumulated_work: String,
    pub height: String,
}

/// The record slot that a field name reads.
pub open spec fn field_slot(name: Seq<char>) -> Option<int> {
    if name == "digest"@ {
        Some(0)
    } else if name == "parent"@ {
        Some(2)
    } else if name == "tx-ids"@ {
        Some(3)
    } else if name == "coinbase"@ {
        Some(4)
    } else if name == "timestamp"@ {
        Some(5)
    } else if name == "epoch-counter"@ {
        Some(6)
    } else if name == "target"@ {
        Some(7)
    } else if name == "accumulated-work"@ {
        Some(8)
    } else if name == "height"@ {
        Some(9)
    } else {
        None
    }
}

/// The text for a numeric field: its decimal form, or a diagnostic where the
/// value is no integer.
pub open spec fn ud_text(atom: Option<Atom>, debug_form: Seq<char>) -> Seq<char> {
    match atom {
        Some(a) => decimal(a.value()),
        None => "invalid (not atom): "@ + debug_form,
    }
}

/// Whether two strings hold the same characters.
fn same_text(a: &str, b: &str) -> (r: bool)
    ensures
        r == (a@ == b@),
{
    let n = a.unicode_len();
    if n != b.unicode_len() {
        return false;
    }
    let mut i: usize = 0;
    while i < n
        invariant
            n == a@.len() == b@.len(),
            i <= n,
            a@.take(i as int) == b@.take(i as int),
        decreases n - i,
    {
        if a.get_char(i) != b.get_char(i) {
            return false;
        }
        assert(a@.take(i + 1) =~= a@.take(i as int).push(a@[i as int]));
        assert(b@.take(i + 1) =~= b@.take(i as int).push(b@[i as int]));
        i = i + 1;
    }
    assert(a@.take(n as int) =~= a@);
    assert(b@.take(n as int) =~= b@);
    true
}

/// Renders a numeric field from its value as an atom, where it is one, and
/// its diagnostic form.
pub fn render_ud(atom: Option<Atom>, debug_form: &str) -> (r: String)
    ensures
        r@ == ud_text(atom, debug_form@),
{
    match atom {
        Some(a) => a.to_decimal(),
        None => {
            let mut s = String::from_str("invalid (not atom): ");
            s.append(debug_form);
            s
        },
    }
}

/// Renders a binary field from what serializing it gave.
pub fn render_binary(serialized: Option<Vec<u8>>) -> (r: Result<String, IndexerError>)
    ensures
        match serialized {
            Some(b) => r is Ok && r->Ok_0@ == hex_text(b@),
            None => r == Err::<String, _>(IndexerError::EncodeFailed),
        },
{
    match serialized {
        Some(b) => Ok(hex_encode(b.as_slice())),
        None => Err(IndexerError::EncodeFailed),
    }
}

impl<V> Page<V> {
    /// The value in record slot `k`; slot 1 is not kept.
    pub open spec fn slot(&self, k: int) -> V {
        if k == 0 {
            self.digest
        } else if k == 2 {
            self.parent
        } else if k == 3 {
            self.tx_ids
        } else if k == 4 {
            self.coinbase
        } else if k == 5 {
            self.timestamp
        } else if k == 6 {
            self.epoch_counter
        } else if k == 7 {
            self.target
        } else if k == 8 {
            self.accumulated_work
        } else {
            self.height
        }
    }

    /// Binds the values of a record's slots to the named fields.
    pub fn from_fields(values: Vec<V>) -> (p: Page<V>)
        requires
            values@.len() == FIELD_COUNT,
        ensures
            forall|k: int| 0 <= k < FIELD_COUNT && k != 1 ==> #[trigger] p.slot(k) == values@[k],
    {
        let ghost vs = values@;
        let mut values = values;
        let height = values.pop().unwrap();
        let accumulated_work = values.pop().unwrap();
        let target = values.pop().unwrap();
        let epoch_counter = values.pop().unwrap();
        let timestamp = values.pop().unwrap();
        let coinbase = values.pop().unwrap();
        let tx_ids = values.pop().unwrap();
        let parent = values.pop().unwrap();
        let _pow = values.pop().unwrap();
        let digest = values.pop().unwrap();
        let p = Page {
            digest,
            parent,
            tx_ids,
            coinbase,
            timestamp,
            epoch_counter,
            target,
            accumulated_work,
            height,
        };
        assert(p.slot(0) == vs[0]);
        p
    }

    /// Decodes a stored record entry by entry: each entry is framed, then
    /// its payload is read with `codec`, before the next one is looked at.
    pub fn from_bytes<C: FieldCodec<V>>(bytes: &[u8], codec: &mut C) -> (r: Result<
        Page<V>,
        IndexerError,
    >)
        ensures
            decode_spec(bytes@) is Err ==> (r == Err::<Page<V>, _>(decode_spec(bytes@)->Err_0)
                || r == Err::<Page<V>, _>(IndexerError::DeserializeFailed)),
            decode_spec(bytes@) is Ok ==> (r is Ok || r == Err::<Page<V>, _>(
                IndexerError::DeserializeFailed,
            )),
    {
        let mut values: Vec<V> = Vec::new();
        let mut offset: usize = 0;
        let ghost mut done: Seq<Seq<u8>> = Seq::empty();
        let mut i: usize = 0;
        while i < FIELD_COUNT
            invariant
                i <= FIELD_COUNT,
                values@.len() == i,
                offset <= bytes@.len(),
                decode_spec(bytes@) == prepend(
                    done,
                    parse_entries(bytes@, offset as nat, (FIELD_COUNT - i) as nat),
                ),
            decreases FIELD_COUNT - i,
        {
            let (start, len) = match read_entry(bytes, offset) {
                Ok(p) => p,
                Err(e) => return Err(e),
            };
            assert(entry_len(bytes@, offset as nat) == Ok::<nat, IndexerError>(len as nat));
            let n = bytes.len();
            assert(start + len <= n);
            let payload = slice_subrange(bytes, start, start + len);
            match codec.deserialize(payload) {
                Some(v) => values.push(v),
                None => return Err(IndexerError::DeserializeFailed),
            }
            proof {
                let rest = parse_entries(
                    bytes@,
                    (start + len) as nat,
                    (FIELD_COUNT - i - 1) as nat,
                );
                if let Ok(tail) = rest {
                    assert(done + (seq![payload@] + tail) =~= done.push(payload@) + tail);
                }
                done = done.push(payload@);
            }
            offset = start + len;
            i = i + 1;
        }
        Ok(Page::from_fields(values))
    }

    /// What a lookup in the pages namespace yields: nothing on a miss, else
    /// the decoded record.
    pub fn from_lookup<C: FieldCodec<V>>(found: Option<Vec<u8>>, codec: &mut C) -> (r: Result<
        Option<Page<V>>,
        IndexerError,
    >)
        ensures
            match record_result(found_bytes(found)) {
                Ok(None) => r == Ok::<Option<Page<V>>, IndexerError>(None),
                Ok(Some(_)) => r matches Ok(Some(_)) || r == Err::<Option<Page<V>>, _>(
                    IndexerError::DeserializeFailed,
                ),
                Err(e) => r == Err::<Option<Page<V>>, _>(e) || r == Err::<Option<Page<V>>, _>(
                    IndexerError::DeserializeFailed,
                ),
            },
    {
        match found {
            None => Ok(None),
            Some(b) => match Page::from_bytes(b.as_slice(), codec) {
                Ok(p) => Ok(Some(p)),
                Err(e) => Err(e),
            },
        }
    }

    /// What a query by height yields from its two lookups: the digest that
    /// the height namespace held, and what the pages namespace held for that
    /// digest (not looked at where there is no digest).
    pub fn from_height_lookup<C: FieldCodec<V>>(
        digest: Option<Vec<u8>>,
        page: Option<Vec<u8>>,
        codec: &mut C,
    ) -> (r: Result<Option<Page<V>>, IndexerError>)
        ensures
            match record_result(chained(found_bytes(digest), found_bytes(page))) {
                Ok(None) => r == Ok::<Option<Page<V>>, IndexerError>(None),
                Ok(Some(_)) => r matches Ok(Some(_)) || r == Err::<Option<Page<V>>, _>(
                    IndexerError::DeserializeFailed,
                ),
                Err(e) => r == Err::<Option<Page<V>>, _>(e) || r == Err::<Option<Page<V>>, _>(
                    IndexerError::DeserializeFailed,
                ),
            },
    {
        match digest {
            None => Ok(None),
            Some(_) => Page::from_lookup(page, codec),
        }
    }

    /// The value of a field, by its name.
    pub fn get_field(&self, field: &str) -> (r: Result<&V, IndexerError>)
        ensures
            match field_slot(field@) {
                Some(k) => r == Ok::<&V, IndexerError>(&self.slot(k)),
                None => r == Err::<&V, _>(IndexerError::InvalidKey),
            },
    {
        if same_text(field, "digest") {
            Ok(&self.digest)
        } else if same_text(field, "parent") {
            Ok(&self.parent)
        } else if same_text(field, "tx-ids") {
            Ok(&self.tx_ids)
        } else if same_text(field, "coinbase") {
            Ok(&self.coinbase)
        } else if same_text(field, "timestamp") {
            Ok(&self.timestamp)
        } else if same_text(field, "epoch-counter") {
            Ok(&self.epoch_counter)
        } else if same_text(field, "target") {
            Ok(&self.target)
        } else if same_text(field, "accumulated-work") {
            Ok(&self.accumulated_work)
        } else if same_text(field, "height") {
            Ok(&self.height)
        } else {
            Err(IndexerError::InvalidKey)
        }
    }

    /// The decimal text of a numeric field, by its name.
    pub fn format_as_ud<C: FieldCodec<V>>(&self, field: &str, codec: &mut C) -> (r: Result<
        String,
        IndexerError,
    >)
        ensures
            field_slot(field@) is None ==> r == Err::<String, _>(IndexerError::InvalidKey),
            field_slot(field@) is Some ==> r is Ok && exists|a: Option<Atom>, d: Seq<char>|
                r->Ok_0@ == #[trigger] ud_text(a, d),
    {
        match self.get_field(field) {
            Ok(v) => {
                let (atom, debug_form) = numeric_parts(v, codec);
                let text = render_ud(atom, debug_form.as_str());
                assert(text@ == ud_text(atom, debug_form@));
                Ok(text)
            },
            Err(e) => Err(e),
        }
    }

    /// Renders every field: binary ones as hex text of what `codec`
    /// serializes them to, counters in decimal.
    pub fn to_block<C: FieldCodec<V>>(&self, codec: &mut C) -> (r: Result<Block, IndexerError>)
        ensures
            r is Err ==> r == Err::<Block, _>(IndexerError::EncodeFailed),
            r is Ok ==> {
                let b = r->Ok_0;
                &&& exists|x: Seq<u8>| b.digest@ == #[trigger] hex_text(x)
                &&& exists|x: Seq<u8>| b.parent@ == #[trigger] hex_text(x)
                &&& exists|x: Seq<u8>| b.tx_ids@ == #[trigger] hex_text(x)
                &&& exists|x: Seq<u8>| b.coinbase@ == #[trigger] hex_text(x)
                &&& exists|x: Seq<u8>| b.target@ == #[trigger] hex_text(x)
                &&& exists|x: Seq<u8>| b.accumulated_work@ == #[trigger] hex_text(x)
                &&& exists|a: Option<Atom>, d: Seq<char>| b.timestamp@ == #[trigger] ud_text(a, d)
                &&& exists|a: Option<Atom>, d: Seq<char>| b.epoch_counter@ == #[trigger] ud_text(
                    a,
                    d,
                )
                &&& exists|a: Option<Atom>, d: Seq<char>| b.height@ == #[trigger] ud_text(a, d)
            },
    {
        let digest = codec.serialize(&self.digest);
        let parent = codec.serialize(&self.parent);
        let tx_ids = codec.serialize(&self.tx_ids);
        let coinbase = codec.serialize(&self.coinbase);
        let timestamp = numeric_parts(&self.timestamp, codec);
        let epoch_counter = numeric_parts(&self.epoch_counter, codec);
        let target = codec.serialize(&self.target);
        let accumulated_work = codec.serialize(&self.accumulated_work);
        let height = numeric_parts(&self.height, codec);
        let r = render_block(
            digest,
            parent,
            tx_ids,
            coinbase,
            timestamp,
            epoch_counter,
            target,
            accumulated_work,
            height,
        );
        r
    }
}

/// Renders a block from what serializing each binary field gave, and each
/// counter's value as an atom (where it is one) with its diagnostic form.
/// It fails exactly when a binary field could not be serialized.
pub fn render_block(
    digest: Option<Vec<u8>>,
    parent: Option<Vec<u8>>,
    tx_ids: Option<Vec<u8>>,
    coinbase: Option<Vec<u8>>,
    timestamp: (Option<Atom>, String),
    epoch_counter: (Option<Atom>, String),
    target: Option<Vec<u8>>,
    accumulated_work: Option<Vec<u8>>,
    height: (Option<Atom>, String),
) -> (r: Result<Block, IndexerError>)
    ensures
        r is Ok <==> (digest is Some && parent is Some && tx_ids is Some && coinbase is Some
            && target is Some && accumulated_work is Some),
        r is Err ==> r == Err::<Block, _>(IndexerError::EncodeFailed),
        r is Ok ==> {
            let b = r->Ok_0;
            &&& b.digest@ == hex_text(digest->0@)
            &&& b.parent@ == hex_text(parent->0@)
            &&& b.tx_ids@ == hex_text(tx_ids->0@)
            &&& b.coinbase@ == hex_text(coinbase->0@)
            &&& b.timestamp@ == ud_text(timestamp.0, timestamp.1@)
            &&& b.epoch_counter@ == ud_text(epoch_counter.0, epoch_counter.1@)
            &&& b.target@ == hex_text(target->0@)
            &&& b.accumulated_work@ == hex_text(accumulated_work->0@)
            &&& b.height@ == ud_text(height.0, height.1@)
        },
{
    let digest = render_binary(digest)?;
    let parent = render_binary(parent)?;
    let tx_ids = render_binary(tx_ids)?;
    let coinbase = render_binary(coinbase)?;
    let target = render_binary(target)?;
    let accumulated_work = render_binary(accumulated_work)?;
    Ok(
        Block {
            digest,
            parent,
            tx_ids,
            coinbase,
            timestamp: render_ud(timestamp.0, timestamp.1.as_str()),
            epoch_counter: render_ud(epoch_counter.0, epoch_counter.1.as_str()),
            target,
            accumulated_work,
            height: render_ud(height.0, height.1.as_str()),
        },
    )
}

/// What `codec` says of a counter: its value as an atom, where it is one,
/// and otherwise its diagnostic form.
fn numeric_parts<V, C: FieldCodec<V>>(v: &V, codec: &mut C) -> (Option<Atom>, String) {
    let atom = codec.as_atom(v);
    match atom {
        Some(_) => (atom, String::new()),
        None => (None, codec.debug_form(v)),
    }
}

} // verus!
