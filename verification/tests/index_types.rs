//! The six key types, their permutations, and index entries.

use tripledb_store::{IndexEntry, IndexKeyType};

#[test]
fn ids_are_stable_and_enumerated_in_order() {
    let values = IndexKeyType::values();
    assert_eq!(values.len(), 6);
    for (expected, key_type) in values.iter().enumerate() {
        assert_eq!(key_type.id() as usize, expected);
    }
    assert_eq!(values[0], IndexKeyType::SubjectPredicate);
    assert_eq!(values[1], IndexKeyType::SubjectObject);
    assert_eq!(values[2], IndexKeyType::PredicateSubject);
    assert_eq!(values[3], IndexKeyType::PredicateObject);
    assert_eq!(values[4], IndexKeyType::ObjectSubject);
    assert_eq!(values[5], IndexKeyType::ObjectPredicate);
}

#[test]
fn names_match_display_forms() {
    assert_eq!(IndexKeyType::SubjectPredicate.name(), "SubjectPredicate");
    assert_eq!(IndexKeyType::SubjectObject.name(), "SubjectObject");
    assert_eq!(IndexKeyType::PredicateSubject.name(), "PredicateSubject");
    assert_eq!(IndexKeyType::PredicateObject.name(), "PredicateObject");
    assert_eq!(IndexKeyType::ObjectSubject.name(), "ObjectSubject");
    assert_eq!(IndexKeyType::ObjectPredicate.name(), "ObjectPredicate");
}

#[test]
fn shuffle_applies_each_permutation() {
    let src: [u32; 3] = [1, 2, 3];
    let expected: [[u32; 3]; 6] = [
        [1, 2, 3],
        [1, 3, 2],
        [2, 1, 3],
        [2, 3, 1],
        [3, 1, 2],
        [3, 2, 1],
    ];
    for (offset, key_type) in IndexKeyType::values().iter().enumerate() {
        let mut dest: [u32; 3] = [0, 0, 0];
        key_type.shuffle_triple_into(&src, &mut dest);
        assert_eq!(dest, expected[offset]);
    }
}

#[test]
fn entry_holds_components_in_canonical_order() {
    let entry = IndexEntry::from(
        String::from("s"),
        String::from("p"),
        String::from("o"),
    );
    assert_eq!(
        entry.components(),
        &[String::from("s"), String::from("p"), String::from("o")]
    );
}

#[test]
fn entry_map_converts_each_component() {
    let entry = IndexEntry::from(String::from("a"), String::from("bb"), String::from("ccc"));
    let lengths = entry.map(|component: &String| component.len() as u32);
    assert_eq!(lengths.components(), &[1u32, 2, 3]);
}
