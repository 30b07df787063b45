use write_batch::batch::{ValueType, WriteBatch};
use write_batch::memtable::{MemTable, VecMemTable};

#[test]
fn test_write_batch() {
    let mut b = WriteBatch::with_capacity(1, 16);
    let entries = vec![
        ("abc".as_bytes(), "def".as_bytes()),
        ("123".as_bytes(), "456".as_bytes()),
        ("xxx".as_bytes(), "yyy".as_bytes()),
        ("zzz".as_bytes(), "".as_bytes()),
        ("010".as_bytes(), "".as_bytes()),
    ];

    for &(k, v) in entries.iter() {
        if !v.is_empty() {
            b.put(k, v);
        } else {
            b.delete(k)
        }
    }

    assert_eq!(b.byte_size(), 39);
    assert_eq!(b.encode().len(), 39);

    let mut count = 0;
    let mut it = b.iter();
    while let Some(_) = it.next() {
        count += 1;
    }
    assert_eq!(count, 5);

    let mut i = 0;
    let mut it = b.iter();
    while let Some((k, v)) = it.next() {
        assert_eq!(k, entries[i].0);

        match v {
            None => assert!(entries[i].1.is_empty()),
            Some(v_) => assert_eq!(v_, entries[i].1),
        }

        i += 1;
    }
    assert_eq!(i, 5);
}

#[test]
fn put_and_delete_keep_insertion_order() {
    let mut b = WriteBatch::new(0);
    b.put(b"k1", b"v1");
    b.delete(b"k2");
    b.put(b"k3", b"");
    assert_eq!(b.len(), 3);

    let mut it = b.iter();
    assert_eq!(it.next(), Some((&b"k1"[..], Some(&b"v1"[..]))));
    assert_eq!(it.next(), Some((&b"k2"[..], None)));
    assert_eq!(it.next(), Some((&b"k3"[..], Some(&b""[..]))));
    assert_eq!(it.next(), None);

    // a fresh traversal starts over without disturbing the batch
    let mut again = b.iter();
    assert_eq!(again.next(), Some((&b"k1"[..], Some(&b"v1"[..]))));
    assert_eq!(b.len(), 3);
}

#[test]
fn encode_exact_bytes() {
    let mut b = WriteBatch::new(0);
    b.put(b"a", b"bc");
    b.delete(b"k");
    let enc = b.encode();
    assert_eq!(enc, vec![1, 1, b'a', 2, b'b', b'c', 0, 1, b'k', 0]);
    assert_eq!(b.byte_size(), enc.len());
}

#[test]
fn encode_empty_batch_is_empty() {
    let b = WriteBatch::new(42);
    assert_eq!(b.byte_size(), 0);
    assert_eq!(b.encode(), Vec::<u8>::new());
}

#[test]
fn empty_value_put_differs_from_deletion_by_tag_alone() {
    let mut p = WriteBatch::new(0);
    p.put(b"k", b"");
    let mut d = WriteBatch::new(0);
    d.delete(b"k");

    let pe = p.encode();
    let de = d.encode();
    assert_eq!(pe, vec![1, 1, b'k', 0]);
    assert_eq!(de, vec![0, 1, b'k', 0]);
    assert_eq!(pe[1..], de[1..]);
    assert_ne!(pe[0], de[0]);

    // decode tells the two apart
    let pb = WriteBatch::decode(0, &pe).unwrap();
    let mut it = pb.iter();
    assert_eq!(it.next(), Some((&b"k"[..], Some(&b""[..]))));
    let db = WriteBatch::decode(0, &de).unwrap();
    let mut it = db.iter();
    assert_eq!(it.next(), Some((&b"k"[..], None)));
}

#[test]
fn multi_byte_varint_lengths() {
    // a 200-byte key needs a two-byte varint length prefix
    let key = [7u8; 200];
    let mut b = WriteBatch::new(0);
    b.delete(&key);
    assert_eq!(b.byte_size(), 1 + 2 + 200 + 1);
    let enc = b.encode();
    assert_eq!(enc.len(), 204);
    assert_eq!(enc[0], 0);
    assert_eq!(enc[1], 0xC8); // 200 = 0b1100_1000 -> 0xC8, 0x01
    assert_eq!(enc[2], 0x01);
    assert_eq!(&enc[3..203], &key[..]);
    assert_eq!(enc[203], 0);
}

#[test]
fn clear_resets_and_is_idempotent() {
    let mut b = WriteBatch::new(11);
    b.put(b"a", b"b");
    b.delete(b"c");
    assert_eq!(b.len(), 2);

    b.clear();
    assert_eq!(b.len(), 0);
    assert_eq!(b.byte_size(), 0);
    assert_eq!(b.encode().len(), 0);

    b.clear();
    assert_eq!(b.len(), 0);
    assert_eq!(b.byte_size(), 0);

    // the base sequence number is untouched by clear
    b.put(b"x", b"y");
    let mut mt = VecMemTable::new();
    b.insert_into_memtable(&mut mt);
    assert_eq!(mt.seq_at(0), 11);
}

#[test]
fn replay_assigns_consecutive_sequence_numbers() {
    let mut b = WriteBatch::with_capacity(1, 16);
    b.put(b"abc", b"def");
    b.put(b"123", b"456");
    b.put(b"xxx", b"yyy");
    b.delete(b"zzz");
    b.delete(b"010");

    let mut mt = VecMemTable::new();
    b.insert_into_memtable(&mut mt);

    assert_eq!(mt.len(), 5);
    for i in 0..5 {
        assert_eq!(mt.seq_at(i), 1 + i as u64);
    }
    assert_eq!(mt.value_type_at(0), ValueType::TypeValue);
    assert_eq!(mt.value_type_at(1), ValueType::TypeValue);
    assert_eq!(mt.value_type_at(2), ValueType::TypeValue);
    assert_eq!(mt.value_type_at(3), ValueType::TypeDeletion);
    assert_eq!(mt.value_type_at(4), ValueType::TypeDeletion);

    assert_eq!(mt.key_at(0), b"abc".to_vec());
    assert_eq!(mt.value_at(0), b"def".to_vec());
    assert_eq!(mt.key_at(3), b"zzz".to_vec());
    // a deletion replays with an empty payload, put or not before
    assert_eq!(mt.value_at(3), Vec::<u8>::new());
    assert_eq!(mt.value_at(4), Vec::<u8>::new());
}

#[test]
fn replay_appends_to_existing_store() {
    let mut mt = VecMemTable::new();
    mt.add(3, ValueType::TypeValue, b"old", b"row");

    let mut b = WriteBatch::new(4);
    b.put(b"new", b"row");
    b.insert_into_memtable(&mut mt);

    assert_eq!(mt.len(), 2);
    assert_eq!(mt.seq_at(0), 3);
    assert_eq!(mt.seq_at(1), 4);
    assert_eq!(mt.key_at(1), b"new".to_vec());
}

#[test]
fn tag_codes() {
    assert_eq!(ValueType::TypeDeletion.tag(), 0);
    assert_eq!(ValueType::TypeValue.tag(), 1);
}
