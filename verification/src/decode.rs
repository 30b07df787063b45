//! Reading an encoded record stream back into a batch.
//!
//! Encoding a batch never fails, but the bytes handed back at recovery time
//! may be damaged: a length prefix may run past the end of the buffer, a tag
//! byte may be meaningless, a tombstone may claim a payload. Decoding
//! reports any such stream as a corrupt record rather than dropping or
//! truncating entries.

use vstd::prelude::*;
use vstd::slice::{slice_index_get, slice_subrange, slice_to_vec};
use crate::batch::{
    encode_batch, encode_entry, spec_tag, BatchOp, SequenceNumber, ValueType, WriteBatch,
};
use crate::varint::{lemma_spec_varint_len, spec_varint, varint_len};

verus! {

/// Report of a damaged record stream: a length prefix running past the end
/// of the buffer, a meaningless tag byte, or a tombstone claiming a payload.
#[derive(Clone, Copy, PartialEq, Eq, Structural, Debug)]
pub struct CorruptBatch;

/// Parse one varint from the front of `bytes`: the value and how many bytes
/// it occupied, or nothing when the buffer ends inside the varint.
pub open spec fn take_varint(bytes: Seq<u8>) -> Option<(nat, nat)>
    decreases bytes.len(),
{
    if bytes.len() == 0 {
        None
    } else if bytes[0] < 128 {
        Some((bytes[0] as nat, 1))
    } else {
        match take_varint(bytes.skip(1)) {
            Some(p) => Some((((bytes[0] - 128) + 128 * p.0) as nat, p.1 + 1)),
            None => None,
        }
    }
}

/// Parse one entry from the front of `bytes`: the operation it records and
/// how many bytes it occupied. Nothing on a meaningless tag, on a length
/// prefix that runs past the end of the buffer, or on a tombstone that
/// claims a payload.
pub open spec fn decode_entry(bytes: Seq<u8>) -> Option<(BatchOp, nat)> {
    if bytes.len() == 0 {
        None
    } else if bytes[0] != spec_tag(ValueType::TypeDeletion) && bytes[0] != spec_tag(
        ValueType::TypeValue,
    ) {
        None
    } else {
        match take_varint(bytes.skip(1)) {
            None => None,
            Some(kp) => {
                let kstart = 1 + kp.1;
                if kstart + kp.0 > bytes.len() {
                    None
                } else {
                    let key = bytes.subrange(kstart as int, (kstart + kp.0) as int);
                    match take_varint(bytes.skip((kstart + kp.0) as int)) {
                        None => None,
                        Some(vp) => {
                            let vstart = kstart + kp.0 + vp.1;
                            if vstart + vp.0 > bytes.len() {
                                None
                            } else if bytes[0] == spec_tag(ValueType::TypeDeletion) {
                                if vp.0 == 0 {
                                    Some(((key, None), vstart))
                                } else {
                                    None
                                }
                            } else {
                                Some(
                                    (
                                        (
                                            key,
                                            Some(
                                                bytes.subrange(
                                                    vstart as int,
                                                    (vstart + vp.0) as int,
                                                ),
                                            ),
                                        ),
                                        vstart + vp.0,
                                    ),
                                )
                            }
                        },
                    }
                }
            },
        }
    }
}

/// Parse a whole record stream back into the ordered operations it encodes,
/// or nothing when any entry of it is corrupt.
pub open spec fn decode_batch(bytes: Seq<u8>) -> Option<Seq<BatchOp>>
    decreases bytes.len(),
{
    if bytes.len() == 0 {
        Some(Seq::empty())
    } else {
        match decode_entry(bytes) {
            None => None,
            Some(p) => if 0 < p.1 <= bytes.len() {
                match decode_batch(bytes.skip(p.1 as int)) {
                    None => None,
                    Some(rest) => Some(seq![p.0] + rest),
                }
            } else {
                None
            },
        }
    }
}

/// Parsing a varint back off the front of its own encoding recovers the
/// value and consumes exactly the encoded bytes, whatever follows them.
pub proof fn lemma_take_varint_inverts(n: nat, rest: Seq<u8>)
    ensures
        take_varint(spec_varint(n) + rest) == Some((n, varint_len(n))),
    decreases n,
{
    let bytes = spec_varint(n) + rest;
    if n < 128 {
        assert(bytes[0] == n as u8);
    } else {
        assert(n % 128 + 128 < 256);
        assert(bytes[0] == (n % 128 + 128) as u8);
        assert(bytes[0] >= 128);
        assert(bytes.skip(1) =~= spec_varint(n / 128) + rest);
        lemma_take_varint_inverts(n / 128, rest);
        vstd::arithmetic::div_mod::lemma_fundamental_div_mod(n as int, 128);
        assert((bytes[0] - 128) + 128 * (n / 128) == n);
    }
}

/// A batch's wire form can as well be read off the front: it is the first
/// entry's record followed by the wire form of the remaining entries.
pub proof fn lemma_encode_batch_first(es: Seq<BatchOp>)
    requires
        es.len() > 0,
    ensures
        encode_batch(es) == encode_entry(es[0]) + encode_batch(es.skip(1)),
    decreases es.len(),
{
    if es.len() == 1 {
        assert(es.drop_last() =~= Seq::<BatchOp>::empty());
        assert(es.skip(1) =~= Seq::<BatchOp>::empty());
        assert(encode_batch(es) =~= encode_entry(es[0]) + encode_batch(es.skip(1)));
    } else {
        lemma_encode_batch_first(es.drop_last());
        assert(es.drop_last()[0] == es[0]);
        assert(es.drop_last().skip(1) =~= es.skip(1).drop_last());
        assert(es.skip(1).last() == es.last());
        assert(encode_batch(es.skip(1)) == encode_batch(es.skip(1).drop_last()) + encode_entry(
            es.skip(1).last(),
        ));
        assert(encode_batch(es) =~= encode_entry(es[0]) + encode_batch(es.skip(1)));
    }
}

/// Parsing one entry back off the front of its own record recovers the
/// operation and consumes exactly the record's bytes, whatever follows them.
pub proof fn lemma_decode_entry_inverts(e: BatchOp, rest: Seq<u8>)
    ensures
        decode_entry(encode_entry(e) + rest) == Some((e, encode_entry(e).len())),
{
    let bytes = encode_entry(e) + rest;
    let klen = e.0.len();
    lemma_spec_varint_len(klen);
    match e.1 {
        Some(v) => {
            let vlen = v.len();
            lemma_spec_varint_len(vlen);
            assert(bytes[0] == spec_tag(ValueType::TypeValue));
            assert(bytes.skip(1) =~= spec_varint(klen) + (e.0 + spec_varint(vlen) + v + rest));
            lemma_take_varint_inverts(klen, e.0 + spec_varint(vlen) + v + rest);
            let kstart = 1 + varint_len(klen);
            assert(bytes.subrange(kstart as int, (kstart + klen) as int) =~= e.0);
            assert(bytes.skip((kstart + klen) as int) =~= spec_varint(vlen) + (v + rest));
            lemma_take_varint_inverts(vlen, v + rest);
            let vstart = kstart + klen + varint_len(vlen);
            assert(bytes.subrange(vstart as int, (vstart + vlen) as int) =~= v);
            assert(encode_entry(e).len() == vstart + vlen);
        },
        None => {
            lemma_spec_varint_len(0);
            assert(bytes[0] == spec_tag(ValueType::TypeDeletion));
            assert(bytes.skip(1) =~= spec_varint(klen) + (e.0 + spec_varint(0) + rest));
            lemma_take_varint_inverts(klen, e.0 + spec_varint(0) + rest);
            let kstart = 1 + varint_len(klen);
            assert(bytes.subrange(kstart as int, (kstart + klen) as int) =~= e.0);
            assert(bytes.skip((kstart + klen) as int) =~= spec_varint(0) + rest);
            lemma_take_varint_inverts(0, rest);
            let vstart = kstart + klen + varint_len(0);
            assert(encode_entry(e).len() == vstart);
        },
    }
}

/// The operation a decoded key and optional value record.
pub open spec fn owned_op(k: Vec<u8>, v: Option<Vec<u8>>) -> BatchOp {
    (
        k@,
        match v {
            Some(x) => Some(x@),
            None => None,
        },
    )
}

/// Read one varint out of `data` at `pos`: the value and the position just
/// past it, or nothing when the buffer ends inside the varint or the value
/// does not fit in `usize`.
fn read_varint(data: &[u8], pos: usize) -> (r: Option<(usize, usize)>)
    requires
        pos <= data@.len(),
    ensures
        match r {
            Some(p) => {
                &&& take_varint(data@.skip(pos as int)) == Some((p.0 as nat, (p.1 - pos) as nat))
                &&& pos < p.1 <= data@.len()
            },
            None => match take_varint(data@.skip(pos as int)) {
                Some(q) => q.0 > usize::MAX,
                None => true,
            },
        },
    decreases data@.len() - pos,
{
    if pos == data.len() {
        None
    } else {
        let b = *slice_index_get(data, pos);
        proof {
            assert(data@.skip(pos as int)[0] == data@[pos as int]);
        }
        if b < 128 {
            Some((b as usize, pos + 1))
        } else {
            proof {
                assert(data@.skip(pos as int).skip(1) =~= data@.skip(pos as int + 1));
            }
            match read_varint(data, pos + 1) {
                None => None,
                Some(p) => {
                    let c = (b - 128) as usize;
                    if p.0 > (usize::MAX - c) / 128 {
                        proof {
                            assert(c + 128 * (p.0 as nat) > usize::MAX) by {
                                assert(p.0 >= (usize::MAX - c) / 128 + 1);
                                assert(128 * (p.0 as nat) >= 128 * (((usize::MAX - c) / 128 + 1)
                                    as nat));
                            }
                        }
                        None
                    } else {
                        proof {
                            assert(128 * p.0 <= 128 * ((usize::MAX - c) / 128));
                            assert(128 * ((usize::MAX - c) / 128) <= usize::MAX - c);
                        }
                        Some((c + 128 * p.0, p.1))
                    }
                },
            }
        }
    }
}

/// Parse one entry out of `data` at `pos`: its key, its value when it is a
/// put, and the position just past it. Nothing when the entry is corrupt.
fn decode_entry_at(data: &[u8], pos: usize) -> (r: Option<(Vec<u8>, Option<Vec<u8>>, usize)>)
    requires
        pos < data@.len(),
    ensures
        match r {
            Some(p) => {
                &&& decode_entry(data@.skip(pos as int)) == Some(
                    (owned_op(p.0, p.1), (p.2 - pos) as nat),
                )
                &&& pos < p.2 <= data@.len()
            },
            None => decode_entry(data@.skip(pos as int)) is None,
        },
{
    let s_len = data.len();
    let ghost bytes = data@.skip(pos as int);
    proof {
        assert(bytes.len() == s_len - pos);
    }
    let tag = *slice_index_get(data, pos);
    proof {
        assert(bytes[0] == data@[pos as int]);
    }
    if tag > 1 {
        return None;
    }
    proof {
        assert(bytes.skip(1) =~= data@.skip(pos as int + 1));
    }
    match read_varint(data, pos + 1) {
        None => None,
        Some(kp) => {
            let klen = kp.0;
            let kend = kp.1;
            proof {
                assert(take_varint(bytes.skip(1)) == Some((klen as nat, (kend - pos - 1) as nat)));
            }
            if klen > s_len - kend {
                return None;
            }
            let key = slice_to_vec(slice_subrange(data, kend, kend + klen));
            proof {
                assert(bytes.subrange((kend - pos) as int, (kend - pos + klen) as int)
                    =~= data@.subrange(kend as int, (kend + klen) as int));
                assert(bytes.skip((kend - pos + klen) as int) =~= data@.skip(
                    (kend + klen) as int,
                ));
            }
            match read_varint(data, kend + klen) {
                None => None,
                Some(vp) => {
                    let vlen = vp.0;
                    let vend = vp.1;
                    proof {
                        assert(take_varint(bytes.skip((kend - pos + klen) as int)) == Some(
                            (vlen as nat, (vend - kend - klen) as nat),
                        ));
                    }
                    if tag == 0 {
                        if vlen == 0 {
                            Some((key, None, vend))
                        } else {
                            None
                        }
                    } else {
                        if vlen > s_len - vend {
                            return None;
                        }
                        let val = slice_to_vec(slice_subrange(data, vend, vend + vlen));
                        proof {
                            assert(bytes.subrange((vend - pos) as int, (vend - pos + vlen) as int)
                                =~= data@.subrange(vend as int, (vend + vlen) as int));
                        }
                        Some((key, Some(val), vend + vlen))
                    }
                },
            }
        },
    }
}

impl WriteBatch {
    /// Rebuild a batch from an encoded record stream, under base sequence
    /// number `seq`. A truncated or inconsistent stream is reported as a
    /// corrupt record, and exactly then; no entry is silently dropped.
    pub fn decode(seq: SequenceNumber, data: &[u8]) -> (r: Result<WriteBatch, CorruptBatch>)
        ensures
            match r {
                Ok(b) => {
                    &&& decode_batch(data@) == Some(b@)
                    &&& b.sequence() == seq
                },
                Err(_) => decode_batch(data@) is None,
            },
    {
        let mut b = WriteBatch::new(seq);
        let n = data.len();
        let mut pos: usize = 0;
        proof {
            assert(data@.skip(0) =~= data@);
            if decode_batch(data@) is Some {
                assert(b@ + decode_batch(data@).unwrap() =~= decode_batch(data@).unwrap());
            }
        }
        while pos < n
            invariant
                pos <= n,
                n == data@.len(),
                b.sequence() == seq,
                match decode_batch(data@.skip(pos as int)) {
                    Some(rest) => decode_batch(data@) == Some(b@ + rest),
                    None => decode_batch(data@) is None,
                },
            decreases n - pos,
        {
            let ghost prefix = b@;
            let ghost s = data@.skip(pos as int);
            match decode_entry_at(data, pos) {
                None => {
                    proof {
                        assert(decode_batch(s) is None);
                    }
                    return Err(CorruptBatch);
                },
                Some((k, v, newpos)) => {
                    proof {
                        assert(s.skip((newpos - pos) as int) =~= data@.skip(newpos as int));
                    }
                    let ghost op = owned_op(k, v);
                    match v {
                        Some(vv) => b.put(k.as_slice(), vv.as_slice()),
                        None => b.delete(k.as_slice()),
                    }
                    proof {
                        assert(b@ =~= prefix + seq![op]);
                        if decode_batch(data@.skip(newpos as int)) is Some {
                            let rest = decode_batch(data@.skip(newpos as int)).unwrap();
                            assert(decode_batch(s) == Some(seq![op] + rest));
                            assert(prefix + (seq![op] + rest) =~= (prefix + seq![op]) + rest);
                        } else {
                            assert(decode_batch(s) is None);
                        }
                    }
                    pos = newpos;
                },
            }
        }
        proof {
            assert(data@.skip(n as int) =~= Seq::<u8>::empty());
            assert(decode_batch(data@.skip(n as int)) == Some(Seq::<BatchOp>::empty()));
            assert(b@ + Seq::<BatchOp>::empty() =~= b@);
        }
        Ok(b)
    }
}

/// Round trip: parsing the wire form of any batch recovers exactly the
/// ordered operations the batch records: no corruption is ever reported of
/// well-formed output, and no entry is lost, changed or reordered.
pub proof fn lemma_round_trip(es: Seq<BatchOp>)
    ensures
        decode_batch(encode_batch(es)) == Some(es),
    decreases es.len(),
{
    if es.len() == 0 {
        assert(es =~= Seq::<BatchOp>::empty());
    } else {
        lemma_encode_batch_first(es);
        let bytes = encode_batch(es);
        lemma_decode_entry_inverts(es[0], encode_batch(es.skip(1)));
        let used = encode_entry(es[0]).len();
        assert(used >= 1);
        assert(bytes.len() == used + encode_batch(es.skip(1)).len());
        assert(bytes.skip(used as int) =~= encode_batch(es.skip(1)));
        lemma_round_trip(es.skip(1));
        assert(seq![es[0]] + es.skip(1) =~= es);
    }
}

} // verus!
