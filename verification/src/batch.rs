use vstd::prelude::*;
use vstd::slice::slice_to_vec;
use crate::memtable::{MemTable, ReplayRecord};
use crate::varint::{
    lemma_spec_varint_len, spec_varint, varint_encode, varint_len, varint_required_space,
};

verus! {

/// Position of an operation in the engine's total order. Replay assigns one
/// to every entry of a batch, counting up from the batch's base.
pub type SequenceNumber = u64;

/// Marker telling a live value apart from a deletion tombstone, both on the
/// wire (as the leading tag byte of a record) and in the ordered store.
#[derive(Clone, Copy, PartialEq, Eq, Structural, Debug)]
pub enum ValueType {
    TypeDeletion,
    TypeValue,
}

/// The one-byte wire code of a marker: zero for a deletion, one for a value.
pub open spec fn spec_tag(t: ValueType) -> u8 {
    match t {
        ValueType::TypeDeletion => 0,
        ValueType::TypeValue => 1,
    }
}

impl ValueType {
    /// The one-byte wire code of this marker.
    pub fn tag(self) -> (t: u8)
        ensures
            t == spec_tag(self),
    {
        match self {
            ValueType::TypeDeletion => 0,
            ValueType::TypeValue => 1,
        }
    }
}

/// One recorded operation, as the contracts see it: the key bytes, and the
/// value bytes for a put or nothing for a deletion.
pub type BatchOp = (Seq<u8>, Option<Seq<u8>>);

struct BatchEntry {
    key: Vec<u8>,
    // None => the entry is a deletion, Some(v) => it puts the value v
    val: Option<Vec<u8>>,
}

impl View for BatchEntry {
    type V = BatchOp;

    closed spec fn view(&self) -> BatchOp {
        (
            self.key@,
            match self.val {
                Some(v) => Some(v@),
                None => None,
            },
        )
    }
}

/// Bytes one entry occupies in the encoded record: one tag byte, a varint
/// length prefix and the bytes of the key, then the same for the value,
/// where a deletion counts as a value of length zero.
pub open spec fn entry_size(e: BatchOp) -> nat {
    match e.1 {
        Some(v) => 1 + varint_len(e.0.len()) + e.0.len() + varint_len(v.len()) + v.len(),
        None => 1 + varint_len(e.0.len()) + e.0.len() + varint_len(0),
    }
}

/// Exact byte count of the encoded form of a run of entries.
pub open spec fn batch_size(es: Seq<BatchOp>) -> nat
    decreases es.len(),
{
    if es.len() == 0 {
        0
    } else {
        batch_size(es.drop_last()) + entry_size(es.last())
    }
}

/// Wire form of one entry: tag, varint key length, key bytes, varint value
/// length, value bytes. A deletion writes the varint of zero and no bytes.
pub open spec fn encode_entry(e: BatchOp) -> Seq<u8> {
    match e.1 {
        Some(v) => seq![spec_tag(ValueType::TypeValue)] + spec_varint(e.0.len()) + e.0
            + spec_varint(v.len()) + v,
        None => seq![spec_tag(ValueType::TypeDeletion)] + spec_varint(e.0.len()) + e.0
            + spec_varint(0),
    }
}

/// Wire form of a whole batch: the entries' records, in insertion order.
pub open spec fn encode_batch(es: Seq<BatchOp>) -> Seq<u8>
    decreases es.len(),
{
    if es.len() == 0 {
        Seq::empty()
    } else {
        encode_batch(es.drop_last()) + encode_entry(es.last())
    }
}

/// The insertion replay issues for one entry under sequence number `s`: a
/// put carries its value under the value marker, a deletion an empty payload
/// under the deletion marker.
pub open spec fn replay_record(e: BatchOp, s: SequenceNumber) -> ReplayRecord {
    match e.1 {
        Some(v) => ReplayRecord { seq: s, value_type: ValueType::TypeValue, key: e.0, value: v },
        None => ReplayRecord {
            seq: s,
            value_type: ValueType::TypeDeletion,
            key: e.0,
            value: Seq::empty(),
        },
    }
}

/// The insertions replay issues for a whole batch: one per entry, in order,
/// under sequence numbers counting up from `base`.
pub open spec fn replay_records(es: Seq<BatchOp>, base: SequenceNumber) -> Seq<ReplayRecord> {
    Seq::new(es.len(), |i: int| replay_record(es[i], (base + i) as u64))
}

/// An ordered group of put and delete operations, encoded or replayed as one
/// unit. The batch owns copies of the key and value bytes handed to it; its
/// view is the sequence of recorded operations, oldest first.
pub struct WriteBatch {
    entries: Vec<BatchEntry>,
    seq: SequenceNumber,
}

impl View for WriteBatch {
    type V = Seq<BatchOp>;

    closed spec fn view(&self) -> Seq<BatchOp> {
        self.entries@.map_values(|e: BatchEntry| e@)
    }
}

impl WriteBatch {
    /// The sequence number the first entry receives on replay.
    pub closed spec fn sequence(&self) -> SequenceNumber {
        self.seq
    }

    /// An empty batch whose replay will start at sequence number `seq`.
    pub fn new(seq: SequenceNumber) -> (b: WriteBatch)
        ensures
            b@ == Seq::<BatchOp>::empty(),
            b.sequence() == seq,
    {
        let b = WriteBatch { entries: Vec::new(), seq };
        proof {
            assert(b@ =~= Seq::<BatchOp>::empty());
        }
        b
    }

    /// Same as `new`, pre-sized for `c` entries.
    pub fn with_capacity(seq: SequenceNumber, c: usize) -> (b: WriteBatch)
        ensures
            b@ == Seq::<BatchOp>::empty(),
            b.sequence() == seq,
    {
        let b = WriteBatch { entries: Vec::with_capacity(c), seq };
        proof {
            assert(b@ =~= Seq::<BatchOp>::empty());
        }
        b
    }

    /// Number of recorded operations.
    pub fn len(&self) -> (n: usize)
        ensures
            n == self@.len(),
    {
        self.entries.len()
    }

    /// Append a value-bearing entry. Any bytes are legal, a zero-length
    /// value included: it stays distinct from a deletion.
    pub fn put(&mut self, k: &[u8], v: &[u8])
        ensures
            final(self)@ == old(self)@.push((k@, Some(v@))),
            final(self).sequence() == old(self).sequence(),
    {
        let e = BatchEntry { key: slice_to_vec(k), val: Some(slice_to_vec(v)) };
        self.entries.push(e);
        proof {
            assert(self@ =~= old(self)@.push((k@, Some(v@))));
        }
    }

    /// Append a deletion tombstone for `k`, whether or not any entry put it.
    pub fn delete(&mut self, k: &[u8])
        ensures
            final(self)@ == old(self)@.push((k@, None)),
            final(self).sequence() == old(self).sequence(),
    {
        let e = BatchEntry { key: slice_to_vec(k), val: None };
        self.entries.push(e);
        proof {
            assert(self@ =~= old(self)@.push((k@, None::<Seq<u8>>)));
        }
    }

    /// Drop every entry, keeping the base sequence number and the capacity.
    /// Clearing an already empty batch changes nothing.
    pub fn clear(&mut self)
        ensures
            final(self)@ == Seq::<BatchOp>::empty(),
            final(self).sequence() == old(self).sequence(),
            batch_size(final(self)@) == 0,
    {
        self.entries.clear();
        proof {
            assert(self@ =~= Seq::<BatchOp>::empty());
        }
    }

    /// The exact number of bytes `encode` produces for the current entries.
    pub fn byte_size(&self) -> (n: usize)
        requires
            batch_size(self@) <= usize::MAX,
        ensures
            n == batch_size(self@),
    {
        let mut size: usize = 0;
        let mut i: usize = 0;
        while i < self.entries.len()
            invariant
                i <= self.entries.len(),
                self@.len() == self.entries@.len(),
                size == batch_size(self@.take(i as int)),
                batch_size(self@) <= usize::MAX,
            decreases self.entries.len() - i,
        {
            proof {
                assert(self@.take(i as int + 1).drop_last() =~= self@.take(i as int));
                assert(self@.take(i as int + 1).last() == self@[i as int]);
                lemma_batch_size_prefix(self@, i as int + 1);
                assert(self@[i as int] == self.entries@[i as int]@);
            }
            let e = &self.entries[i];
            let ks = varint_required_space(e.key.len());
            size = size + e.key.len() + ks;
            match &e.val {
                Some(v) => {
                    let vs = varint_required_space(v.len());
                    size = size + v.len() + vs;
                }
                None => {
                    size = size + 1;
                }
            }
            size = size + 1;
            i = i + 1;
        }
        proof {
            assert(self@.take(self.entries@.len() as int) =~= self@);
        }
        size
    }

    /// A fresh traversal of the entries, oldest first. It borrows the batch
    /// and leaves it untouched, so any number can be started.
    pub fn iter<'b>(&'b self) -> (it: WriteBatchIter<'b>)
        ensures
            it.entries() == self@,
            it.pos() == 0,
    {
        WriteBatchIter { batch: self, ix: 0 }
    }

    /// Replay the batch into an ordered store: one insertion per entry, in
    /// insertion order, under sequence numbers counting up from the base.
    /// A put carries the value marker and its bytes, a deletion the deletion
    /// marker and an empty payload.
    pub fn insert_into_memtable<M: MemTable>(&self, mt: &mut M)
        requires
            self.sequence() + self@.len() <= u64::MAX,
        ensures
            final(mt).records() == old(mt).records() + replay_records(self@, self.sequence()),
    {
        let mut sequence_num: u64 = self.seq;
        let mut i: usize = 0;
        while i < self.entries.len()
            invariant
                i <= self.entries.len(),
                self@.len() == self.entries@.len(),
                sequence_num == self.sequence() + i,
                self.sequence() + self@.len() <= u64::MAX,
                mt.records() == old(mt).records() + replay_records(
                    self@.take(i as int),
                    self.sequence(),
                ),
            decreases self.entries.len() - i,
        {
            proof {
                assert(self@[i as int] == self.entries@[i as int]@);
            }
            let e = &self.entries[i];
            match &e.val {
                Some(v) => {
                    mt.add(sequence_num, ValueType::TypeValue, e.key.as_slice(), v.as_slice());
                },
                None => {
                    let empty_v: Vec<u8> = Vec::new();
                    mt.add(
                        sequence_num,
                        ValueType::TypeDeletion,
                        e.key.as_slice(),
                        empty_v.as_slice(),
                    );
                },
            }
            proof {
                assert(replay_records(self@.take(i as int + 1), self.sequence()) =~= replay_records(
                    self@.take(i as int),
                    self.sequence(),
                ).push(replay_record(self@[i as int], sequence_num)));
                assert(mt.records() =~= old(mt).records() + replay_records(
                    self@.take(i as int + 1),
                    self.sequence(),
                ));
            }
            sequence_num = sequence_num + 1;
            i = i + 1;
        }
        proof {
            assert(self@.take(self.entries@.len() as int) =~= self@);
        }
    }

    /// The write-ahead-log record of the batch: the entries' wire forms, in
    /// insertion order. Its length equals `byte_size`.
    pub fn encode(&self) -> (r: Vec<u8>)
        requires
            batch_size(self@) <= usize::MAX,
        ensures
            r@ == encode_batch(self@),
            r@.len() == batch_size(self@),
    {
        let mut buf: Vec<u8> = Vec::with_capacity(self.byte_size());
        let mut i: usize = 0;
        while i < self.entries.len()
            invariant
                i <= self.entries.len(),
                self@.len() == self.entries@.len(),
                buf@ == encode_batch(self@.take(i as int)),
            decreases self.entries.len() - i,
        {
            proof {
                assert(self@[i as int] == self.entries@[i as int]@);
            }
            let ghost pre: Seq<u8> = buf@;
            let e = &self.entries[i];
            match &e.val {
                Some(v) => {
                    buf.push(ValueType::TypeValue.tag());
                    let mut kl = varint_encode(e.key.len());
                    buf.append(&mut kl);
                    append_bytes(&mut buf, e.key.as_slice());
                    let mut vl = varint_encode(v.len());
                    buf.append(&mut vl);
                    append_bytes(&mut buf, v.as_slice());
                },
                None => {
                    buf.push(ValueType::TypeDeletion.tag());
                    let mut kl = varint_encode(e.key.len());
                    buf.append(&mut kl);
                    append_bytes(&mut buf, e.key.as_slice());
                    let mut vl = varint_encode(0);
                    buf.append(&mut vl);
                },
            }
            proof {
                assert(buf@ =~= pre + encode_entry(self@[i as int]));
                assert(self@.take(i as int + 1).drop_last() =~= self@.take(i as int));
                assert(self@.take(i as int + 1).last() == self@[i as int]);
                assert(buf@ =~= encode_batch(self@.take(i as int + 1)));
            }
            i = i + 1;
        }
        proof {
            assert(self@.take(self.entries@.len() as int) =~= self@);
            lemma_encode_len(self@);
        }
        buf
    }
}

/// A traversal of a batch's entries, oldest first. It borrows the batch and
/// hands out the recorded key and value bytes of one entry per step.
pub struct WriteBatchIter<'a> {
    batch: &'a WriteBatch,
    ix: usize,
}

/// The operation a yielded pair records: its key bytes, and its value bytes
/// for a put or nothing for a deletion.
pub open spec fn item_view(p: (&[u8], Option<&[u8]>)) -> BatchOp {
    (
        p.0@,
        match p.1 {
            Some(v) => Some(v@),
            None => None,
        },
    )
}

impl<'a> WriteBatchIter<'a> {
    /// The entries being traversed: the batch's view when `iter` was called.
    pub closed spec fn entries(&self) -> Seq<BatchOp> {
        self.batch@
    }

    /// How many entries have been yielded so far.
    pub closed spec fn pos(&self) -> int {
        self.ix as int
    }

    /// The next entry in insertion order, or nothing once every entry has
    /// been yielded. The bytes borrow from the batch; nothing is copied.
    pub fn next(&mut self) -> (r: Option<(&'a [u8], Option<&'a [u8]>)>)
        ensures
            final(self).entries() == old(self).entries(),
            match r {
                Some(p) => {
                    &&& old(self).pos() < old(self).entries().len()
                    &&& final(self).pos() == old(self).pos() + 1
                    &&& item_view(p) == old(self).entries()[old(self).pos()]
                },
                None => {
                    &&& old(self).pos() >= old(self).entries().len()
                    &&& final(self).pos() == old(self).pos()
                },
            },
    {
        let b = self.batch;
        if self.ix < b.entries.len() {
            proof {
                assert(b@[self.ix as int] == b.entries@[self.ix as int]@);
            }
            let e = &b.entries[self.ix];
            self.ix = self.ix + 1;
            match &e.val {
                Some(v) => Some((e.key.as_slice(), Some(v.as_slice()))),
                None => Some((e.key.as_slice(), None)),
            }
        } else {
            None
        }
    }
}

/// Append the bytes of `bytes` to `buf`, in order.
fn append_bytes(buf: &mut Vec<u8>, bytes: &[u8])
    ensures
        final(buf)@ == old(buf)@ + bytes@,
{
    let n = bytes.len();
    let mut j: usize = 0;
    while j < n
        invariant
            j <= n,
            n == bytes@.len(),
            buf@ == old(buf)@ + bytes@.take(j as int),
        decreases n - j,
    {
        let x = *vstd::slice::slice_index_get(bytes, j);
        buf.push(x);
        proof {
            assert(bytes@.take(j as int + 1) =~= bytes@.take(j as int).push(bytes@[j as int]));
            assert(buf@ =~= old(buf)@ + bytes@.take(j as int + 1));
        }
        j = j + 1;
    }
    proof {
        assert(bytes@.take(n as int) =~= bytes@);
    }
}

/// How much of the record a prefix of the entries occupies never exceeds the
/// size of the whole record.
pub proof fn lemma_batch_size_prefix(es: Seq<BatchOp>, i: int)
    requires
        0 <= i <= es.len(),
    ensures
        batch_size(es.take(i)) <= batch_size(es),
    decreases es.len(),
{
    if i == es.len() {
        assert(es.take(i) =~= es);
    } else {
        assert(es.drop_last().take(i) =~= es.take(i));
        lemma_batch_size_prefix(es.drop_last(), i);
    }
}

/// Appending one entry grows the record by exactly that entry's size.
pub proof fn lemma_batch_size_push(es: Seq<BatchOp>, e: BatchOp)
    ensures
        batch_size(es.push(e)) == batch_size(es) + entry_size(e),
{
    assert(es.push(e).drop_last() =~= es);
    assert(es.push(e).last() == e);
}

/// One entry's wire form occupies exactly the bytes the size formula charges
/// for it.
pub proof fn lemma_encode_entry_len(e: BatchOp)
    ensures
        encode_entry(e).len() == entry_size(e),
{
    lemma_spec_varint_len(e.0.len());
    match e.1 {
        Some(v) => lemma_spec_varint_len(v.len()),
        None => lemma_spec_varint_len(0),
    }
}

/// The size formula is exact: a batch's wire form is `batch_size` bytes
/// long, never more and never less.
pub proof fn lemma_encode_len(es: Seq<BatchOp>)
    ensures
        encode_batch(es).len() == batch_size(es),
    decreases es.len(),
{
    if es.len() != 0 {
        lemma_encode_len(es.drop_last());
        lemma_encode_entry_len(es.last());
    }
}

/// A deletion entry always replays under the deletion marker with an empty
/// payload, whether or not any entry ever put its key.
pub proof fn lemma_deletion_replays_empty(es: Seq<BatchOp>, base: SequenceNumber, i: int)
    requires
        0 <= i < es.len(),
        es[i].1 is None,
    ensures
        replay_records(es, base)[i].value_type == ValueType::TypeDeletion,
        replay_records(es, base)[i].value == Seq::<u8>::empty(),
{
}

/// Replay assigns sequence numbers `base, base + 1, ...` to the entries in
/// order, so no two entries of one batch share a sequence number.
pub proof fn lemma_replay_sequence_numbers(es: Seq<BatchOp>, base: SequenceNumber)
    requires
        base + es.len() <= u64::MAX,
    ensures
        replay_records(es, base).len() == es.len(),
        forall|i: int|
            0 <= i < es.len() ==> #[trigger] replay_records(es, base)[i].seq == base + i,
        forall|i: int, j: int|
            0 <= i < es.len() && 0 <= j < es.len() && i != j ==> replay_records(es, base)[i].seq
                != replay_records(es, base)[j].seq,
{
}

/// A put of a zero-length value and a deletion of the same key both carry a
/// zero value length on the wire, yet stay distinguishable: their records
/// differ in the leading tag byte and nowhere else.
pub proof fn lemma_empty_value_distinct_from_deletion(k: Seq<u8>)
    ensures
        encode_entry((k, Some(Seq::<u8>::empty())))[0] == spec_tag(ValueType::TypeValue),
        encode_entry((k, None))[0] == spec_tag(ValueType::TypeDeletion),
        encode_entry((k, Some(Seq::<u8>::empty()))).skip(1) == encode_entry((k, None)).skip(1),
{
    assert(encode_entry((k, Some(Seq::<u8>::empty()))).skip(1) =~= encode_entry(
        (k, None),
    ).skip(1));
}

} // verus!
