//! Round trips and ordering of the binary codec.

use std::cmp::Ordering;
use tripledb_store::{cmp_encoded, IndexKey, TableValue};

#[test]
fn sorts_correctly() {
    let a_components = vec![[0, 0, 0], [0, 1, 0], [0, 1, 1]];
    let b_components = vec![[1, 0, 0], [0, 1, 0], [0, 1, 0]];
    let expectations = [Ordering::Less, Ordering::Equal, Ordering::Greater];

    for offset in 0..3 {
        let a = IndexKey::from(a_components[offset]);
        let b = IndexKey::from(b_components[offset]);
        assert_eq!(expectations[offset], a.cmp(&b));
    }
}

#[test]
fn identifier_encoding_is_little_endian() {
    let encoded = 0x01020304u32.encode();
    assert_eq!(encoded, vec![0x04, 0x03, 0x02, 0x01]);
}

#[test]
fn identifier_round_trip() {
    for value in [0u32, 1, 255, 256, 65536, u32::MAX] {
        let encoded = value.encode();
        assert_eq!(encoded.len(), 4);
        assert_eq!(<u32 as TableValue>::decode(&encoded), value);
    }
}

#[test]
fn term_encoding_is_raw_utf8() {
    let term = String::from("hello");
    assert_eq!(term.encode(), b"hello".to_vec());
    let accented = String::from("caf\u{e9}");
    assert_eq!(accented.encode(), "caf\u{e9}".as_bytes().to_vec());
}

#[test]
fn term_round_trip() {
    for term in ["", "a", "hello world", "caf\u{e9}", "\u{1f600}"] {
        let owned = String::from(term);
        let encoded = owned.encode();
        assert_eq!(<String as TableValue>::decode(&encoded), owned);
    }
}

#[test]
fn term_decode_is_lossy_on_invalid_utf8() {
    let decoded = <String as TableValue>::decode(&[0x61, 0xff, 0x62]);
    assert_eq!(decoded, String::from("a\u{fffd}b"));
}

#[test]
fn index_key_encoding_concatenates_little_endian_fields() {
    let key = IndexKey::from([1, 2, 0x01020304]);
    let encoded = key.encode();
    assert_eq!(
        encoded,
        vec![1, 0, 0, 0, 2, 0, 0, 0, 0x04, 0x03, 0x02, 0x01]
    );
}

#[test]
fn index_key_round_trip() {
    let key = IndexKey::from([7, 0, u32::MAX]);
    let encoded = key.encode();
    assert_eq!(encoded.len(), 12);
    let decoded = <IndexKey as TableValue>::decode(&encoded);
    assert_eq!(decoded, key);
    assert_eq!(decoded.parts(), [7, 0, u32::MAX]);
}

#[test]
fn index_key_compares_all_three_fields() {
    let a = IndexKey::from([1, 2, 3]);
    let b = IndexKey::from([1, 2, 4]);
    assert_eq!(a.cmp(&b), Ordering::Less);
    assert_eq!(a.compare(&b), Ordering::Less);
    assert_eq!(b.compare(&a), Ordering::Greater);
    assert_eq!(a.compare(&a), Ordering::Equal);
}

#[test]
fn encoded_order_matches_decoded_order() {
    // Raw byte order would put encode(1) = [1,0,0,0] after encode(256) =
    // [0,1,0,0]; the decode-then-compare rule restores numeric order.
    let one = 1u32.encode();
    let two_fifty_six = 256u32.encode();
    assert!(one > two_fifty_six);
    assert_eq!(cmp_encoded::<u32>(&one, &two_fifty_six), Ordering::Less);

    let small = IndexKey::from([0, 0, 256]).encode();
    let large = IndexKey::from([0, 0, 1]).encode();
    assert_eq!(cmp_encoded::<IndexKey>(&small, &large), Ordering::Greater);

    let apple = String::from("apple").encode();
    let banana = String::from("banana").encode();
    assert_eq!(cmp_encoded::<String>(&apple, &banana), Ordering::Less);
    assert_eq!(cmp_encoded::<String>(&banana, &banana), Ordering::Equal);
}
