use write_batch::batch::WriteBatch;
use write_batch::memtable::{MemTable, VecMemTable};

#[test]
fn round_trip_reproduces_every_entry() {
    let mut b = WriteBatch::with_capacity(1, 16);
    b.put(b"abc", b"def");
    b.put(b"123", b"456");
    b.put(b"xxx", b"yyy");
    b.delete(b"zzz");
    b.delete(b"010");

    let enc = b.encode();
    let d = WriteBatch::decode(1, &enc).unwrap();

    assert_eq!(d.len(), b.len());
    let mut it_b = b.iter();
    let mut it_d = d.iter();
    loop {
        let x = it_b.next();
        let y = it_d.next();
        assert_eq!(x, y);
        if x.is_none() {
            break;
        }
    }

    // the decoded batch replays exactly as the batch it came from
    let mut mt_b = VecMemTable::new();
    b.insert_into_memtable(&mut mt_b);
    let mut mt_d = VecMemTable::new();
    d.insert_into_memtable(&mut mt_d);
    assert_eq!(mt_b.len(), mt_d.len());
    for i in 0..mt_b.len() {
        assert_eq!(mt_b.seq_at(i), mt_d.seq_at(i));
        assert_eq!(mt_b.value_type_at(i), mt_d.value_type_at(i));
        assert_eq!(mt_b.key_at(i), mt_d.key_at(i));
        assert_eq!(mt_b.value_at(i), mt_d.value_at(i));
    }
}

#[test]
fn decode_empty_stream_is_empty_batch() {
    let d = WriteBatch::decode(9, &[]).unwrap();
    assert_eq!(d.len(), 0);
    assert_eq!(d.byte_size(), 0);
}

#[test]
fn decode_rejects_meaningless_tag() {
    assert!(WriteBatch::decode(0, &[2]).is_err());
}

#[test]
fn decode_rejects_truncated_records() {
    // tag byte alone, the key length is missing
    assert!(WriteBatch::decode(0, &[1]).is_err());
    // key length prefix runs past the end of the buffer
    assert!(WriteBatch::decode(0, &[1, 5, b'a']).is_err());
    // value length prefix runs past the end of the buffer
    assert!(WriteBatch::decode(0, &[1, 1, b'a', 2, b'b']).is_err());
    // the buffer ends inside an unterminated varint
    assert!(WriteBatch::decode(0, &[1, 0x80]).is_err());
    // a good record followed by a damaged one is corrupt as a whole
    assert!(WriteBatch::decode(0, &[0, 1, b'k', 0, 2]).is_err());
}

#[test]
fn decode_rejects_tombstone_with_payload() {
    assert!(WriteBatch::decode(0, &[0, 1, b'k', 1, b'v']).is_err());
}

#[test]
fn decode_accepts_valid_stream() {
    // put("a", "bc") then delete("k"), written out by hand
    let d = WriteBatch::decode(5, &[1, 1, b'a', 2, b'b', b'c', 0, 1, b'k', 0]).unwrap();
    assert_eq!(d.len(), 2);
    let mut it = d.iter();
    assert_eq!(it.next(), Some((&b"a"[..], Some(&b"bc"[..]))));
    assert_eq!(it.next(), Some((&b"k"[..], None)));
    assert_eq!(it.next(), None);
    let mut mt = VecMemTable::new();
    d.insert_into_memtable(&mut mt);
    assert_eq!(mt.seq_at(0), 5);
    assert_eq!(mt.seq_at(1), 6);
}
