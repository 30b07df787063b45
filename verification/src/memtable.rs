use vstd::prelude::*;
use crate::batch::{SequenceNumber, ValueType};

verus! {

/// One insertion as an ordered store receives it: a sequence number, a
/// value-type marker, and the key and payload bytes.
pub ghost struct ReplayRecord {
    pub seq: SequenceNumber,
    pub value_type: ValueType,
    pub key: Seq<u8>,
    pub value: Seq<u8>,
}

/// The ordered in-memory store a batch replays into. The store itself is an
/// external collaborator; this trait states the one capability replay needs:
/// it accepts tagged, sequenced insertions and keeps them all.
pub trait MemTable {
    /// The insertions this store has accepted, in the order they arrived.
    spec fn records(&self) -> Seq<ReplayRecord>;

    /// Record one insertion.
    fn add(&mut self, seq: SequenceNumber, value_type: ValueType, key: &[u8], value: &[u8])
        ensures
            final(self).records() == old(self).records().push(
                ReplayRecord { seq, value_type, key: key@, value: value@ },
            ),
    ;
}

/// A lightweight store: it keeps every insertion in arrival order and does
/// nothing else. It lets batch replay be exercised without the real engine.
pub struct VecMemTable {
    rows: Vec<(SequenceNumber, ValueType, Vec<u8>, Vec<u8>)>,
}

impl VecMemTable {
    pub fn new() -> (r: VecMemTable)
        ensures
            r.records() == Seq::<ReplayRecord>::empty(),
    {
        let r = VecMemTable { rows: Vec::new() };
        proof {
            assert(r.records() =~= Seq::<ReplayRecord>::empty());
        }
        r
    }

    pub fn len(&self) -> (n: usize)
        ensures
            n == self.records().len(),
    {
        self.rows.len()
    }

    /// The sequence number of the `i`th insertion.
    pub fn seq_at(&self, i: usize) -> (s: SequenceNumber)
        requires
            i < self.records().len(),
        ensures
            s == self.records()[i as int].seq,
    {
        self.rows[i].0
    }

    /// The value-type marker of the `i`th insertion.
    pub fn value_type_at(&self, i: usize) -> (t: ValueType)
        requires
            i < self.records().len(),
        ensures
            t == self.records()[i as int].value_type,
    {
        self.rows[i].1
    }

    /// A copy of the key bytes of the `i`th insertion.
    pub fn key_at(&self, i: usize) -> (k: Vec<u8>)
        requires
            i < self.records().len(),
        ensures
            k@ == self.records()[i as int].key,
    {
        copy_bytes(&self.rows[i].2)
    }

    /// A copy of the payload bytes of the `i`th insertion.
    pub fn value_at(&self, i: usize) -> (v: Vec<u8>)
        requires
            i < self.records().len(),
        ensures
            v@ == self.records()[i as int].value,
    {
        copy_bytes(&self.rows[i].3)
    }
}

impl MemTable for VecMemTable {
    closed spec fn records(&self) -> Seq<ReplayRecord> {
        self.rows@.map_values(
            |row: (SequenceNumber, ValueType, Vec<u8>, Vec<u8>)|
                ReplayRecord { seq: row.0, value_type: row.1, key: row.2@, value: row.3@ },
        )
    }

    fn add(&mut self, seq: SequenceNumber, value_type: ValueType, key: &[u8], value: &[u8]) {
        let row = (seq, value_type, vstd::slice::slice_to_vec(key), vstd::slice::slice_to_vec(value));
        self.rows.push(row);
        proof {
            assert(self.records() =~= old(self).records().push(
                ReplayRecord { seq, value_type, key: key@, value: value@ },
            ));
        }
    }
}

fn copy_bytes(v: &Vec<u8>) -> (r: Vec<u8>)
    ensures
        r@ == v@,
{
    let mut r: Vec<u8> = Vec::new();
    let mut j: usize = 0;
    while j < v.len()
        invariant
            j <= v.len(),
            r@ == v@.take(j as int),
        decreases v.len() - j,
    {
        r.push(v[j]);
        proof {
            assert(v@.take(j as int + 1) =~= v@.take(j as int).push(v@[j as int]));
        }
        j = j + 1;
    }
    proof {
        assert(v@.take(v@.len() as int) =~= v@);
    }
    r
}

} // verus!
