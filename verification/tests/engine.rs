//! The storage engine: interning, fan-out, staging, and atomicity.

use tripledb_store::{Batch, IndexEntry, IndexKey, StorageEngine, Table, TableDescriptor};

fn entry(s: &str, p: &str, o: &str) -> IndexEntry<String> {
    IndexEntry::from(String::from(s), String::from(p), String::from(o))
}

#[test]
fn open_fresh_path_yields_counter_zero() {
    let engine = StorageEngine::open("fresh-path").unwrap();
    assert_eq!(engine.counter, 0);
    assert_eq!(engine.id_table.get(&String::from("a")).unwrap(), None);
    assert_eq!(engine.uri_table.get(&0).unwrap(), None);
    assert_eq!(engine.index_tables.len(), 6);
    for table in &engine.index_tables {
        assert_eq!(table.len(), 0);
    }
}

#[test]
fn single_triple_interns_and_indexes() {
    let mut engine = StorageEngine::open("single").unwrap();
    engine.index(vec![entry("a", "b", "c")]).unwrap();

    assert_eq!(engine.id_table.get(&String::from("a")).unwrap(), Some(0));
    assert_eq!(engine.id_table.get(&String::from("b")).unwrap(), Some(1));
    assert_eq!(engine.id_table.get(&String::from("c")).unwrap(), Some(2));
    assert_eq!(engine.uri_table.get(&0).unwrap(), Some(String::from("a")));
    assert_eq!(engine.uri_table.get(&1).unwrap(), Some(String::from("b")));
    assert_eq!(engine.uri_table.get(&2).unwrap(), Some(String::from("c")));
    assert_eq!(
        engine.index_tables[0].get(&IndexKey::from([0, 1, 2])).unwrap(),
        Some(0)
    );
    assert_eq!(engine.counter, 3);
}

#[test]
fn two_triples_share_ids_and_fan_out_twelve_rows() {
    let mut engine = StorageEngine::open("two").unwrap();
    engine
        .index(vec![entry("a", "b", "c"), entry("a", "b", "d")])
        .unwrap();

    // Exactly four distinct identifiers, in first-seen order.
    assert_eq!(engine.counter, 4);
    assert_eq!(engine.id_table.get(&String::from("a")).unwrap(), Some(0));
    assert_eq!(engine.id_table.get(&String::from("b")).unwrap(), Some(1));
    assert_eq!(engine.id_table.get(&String::from("c")).unwrap(), Some(2));
    assert_eq!(engine.id_table.get(&String::from("d")).unwrap(), Some(3));

    // Six rows per triple: every index table holds both triples.
    let mut rows = 0;
    for table in &engine.index_tables {
        rows += table.len();
    }
    assert_eq!(rows, 12);
    assert_eq!(
        engine.index_tables[0].get(&IndexKey::from([0, 1, 2])).unwrap(),
        Some(0)
    );
    assert_eq!(
        engine.index_tables[0].get(&IndexKey::from([0, 1, 3])).unwrap(),
        Some(0)
    );
}

#[test]
fn fan_out_covers_all_six_permutations() {
    let mut engine = StorageEngine::open("fanout").unwrap();
    // Claim identifier 0 so that the interesting triple resolves to (1, 2, 3).
    engine.index(vec![entry("x", "x", "x")]).unwrap();
    engine.index(vec![entry("s", "p", "o")]).unwrap();

    assert_eq!(engine.id_table.get(&String::from("s")).unwrap(), Some(1));
    assert_eq!(engine.id_table.get(&String::from("p")).unwrap(), Some(2));
    assert_eq!(engine.id_table.get(&String::from("o")).unwrap(), Some(3));

    let expected: [[u32; 3]; 6] = [
        [1, 2, 3],
        [1, 3, 2],
        [2, 1, 3],
        [2, 3, 1],
        [3, 1, 2],
        [3, 2, 1],
    ];
    for (offset, key) in expected.iter().enumerate() {
        assert_eq!(
            engine.index_tables[offset].get(&IndexKey::from(*key)).unwrap(),
            Some(0),
            "partition {} misses its permuted key",
            offset
        );
    }
}

#[test]
fn interning_is_idempotent_across_calls() {
    let mut engine = StorageEngine::open("idempotent-intern").unwrap();
    engine.index(vec![entry("a", "b", "c")]).unwrap();
    assert_eq!(engine.counter, 3);

    // The same terms again: same identifiers, counter does not advance.
    let staged = engine.index(vec![entry("a", "b", "c")]).unwrap();
    assert_eq!(engine.counter, 3);
    assert_eq!(engine.id_table.get(&String::from("a")).unwrap(), Some(0));
    assert_eq!(engine.id_table.get(&String::from("b")).unwrap(), Some(1));
    assert_eq!(engine.id_table.get(&String::from("c")).unwrap(), Some(2));
    // No dictionary rows staged the second time: only the six index rows.
    assert_eq!(staged.len(), 6);
}

#[test]
fn reindexing_leaves_the_same_rows() {
    let mut engine = StorageEngine::open("idempotent-index").unwrap();
    engine.index(vec![entry("a", "b", "c")]).unwrap();
    engine.index(vec![entry("a", "b", "c")]).unwrap();

    for table in &engine.index_tables {
        assert_eq!(table.len(), 1);
    }
    assert_eq!(
        engine.index_tables[0].get(&IndexKey::from([0, 1, 2])).unwrap(),
        Some(0)
    );
}

#[test]
fn distinct_terms_get_distinct_ids() {
    let mut engine = StorageEngine::open("bijection").unwrap();
    engine
        .index(vec![entry("t0", "t1", "t2"), entry("t3", "t4", "t5")])
        .unwrap();
    let mut seen = Vec::new();
    for name in ["t0", "t1", "t2", "t3", "t4", "t5"] {
        let id = engine.id_table.get(&String::from(name)).unwrap().unwrap();
        assert!(!seen.contains(&id));
        assert_eq!(
            engine.uri_table.get(&id).unwrap(),
            Some(String::from(name))
        );
        seen.push(id);
    }
}

#[test]
fn staged_writes_carry_the_on_disk_formats() {
    let mut engine = StorageEngine::open("formats").unwrap();
    let staged = engine.index(vec![entry("a", "b", "c")]).unwrap();

    // Six dictionary rows (two per new term), then six index rows.
    assert_eq!(staged.len(), 12);
    let rows = &staged.entries;
    assert_eq!(rows[0].table, "id_table");
    assert_eq!(rows[0].key, b"a".to_vec());
    assert_eq!(rows[0].value, vec![0, 0, 0, 0]);
    assert_eq!(rows[1].table, "uri_table");
    assert_eq!(rows[1].key, vec![0, 0, 0, 0]);
    assert_eq!(rows[1].value, b"a".to_vec());
    assert_eq!(rows[2].table, "id_table");
    assert_eq!(rows[2].key, b"b".to_vec());
    assert_eq!(rows[2].value, vec![1, 0, 0, 0]);
    assert_eq!(rows[3].table, "uri_table");
    assert_eq!(rows[3].key, vec![1, 0, 0, 0]);
    assert_eq!(rows[3].value, b"b".to_vec());
    assert_eq!(rows[4].table, "id_table");
    assert_eq!(rows[4].key, b"c".to_vec());
    assert_eq!(rows[4].value, vec![2, 0, 0, 0]);
    assert_eq!(rows[5].table, "uri_table");
    assert_eq!(rows[5].key, vec![2, 0, 0, 0]);
    assert_eq!(rows[5].value, b"c".to_vec());

    let names = [
        "SubjectPredicate",
        "SubjectObject",
        "PredicateSubject",
        "PredicateObject",
        "ObjectSubject",
        "ObjectPredicate",
    ];
    let keys: [[u8; 12]; 6] = [
        [0, 0, 0, 0, 1, 0, 0, 0, 2, 0, 0, 0],
        [0, 0, 0, 0, 2, 0, 0, 0, 1, 0, 0, 0],
        [1, 0, 0, 0, 0, 0, 0, 0, 2, 0, 0, 0],
        [1, 0, 0, 0, 2, 0, 0, 0, 0, 0, 0, 0],
        [2, 0, 0, 0, 0, 0, 0, 0, 1, 0, 0, 0],
        [2, 0, 0, 0, 1, 0, 0, 0, 0, 0, 0, 0],
    ];
    for offset in 0..6 {
        let row = &rows[6 + offset];
        assert_eq!(row.table, names[offset]);
        assert_eq!(row.key, keys[offset].to_vec());
        assert_eq!(row.value, vec![0, 0, 0, 0]);
    }
}

#[test]
fn staging_without_commit_leaves_no_trace() {
    let engine = StorageEngine::open("staging").unwrap();

    // Stage dictionary writes into a batch, then drop the batch instead of
    // committing it: a forced failure between staging and commit.
    let mut batch = Batch::new();
    engine
        .id_table
        .put(&mut batch, &String::from("a"), &0)
        .unwrap();
    engine
        .uri_table
        .put(&mut batch, &0, &String::from("a"))
        .unwrap();
    assert_eq!(batch.len(), 2);
    drop(batch);

    // Nothing staged became visible.
    assert_eq!(engine.id_table.get(&String::from("a")).unwrap(), None);
    assert_eq!(engine.uri_table.get(&0).unwrap(), None);

    // Re-opening the engine shows none of the batch's writes either.
    let reopened = StorageEngine::open("staging").unwrap();
    assert_eq!(reopened.counter, 0);
    assert_eq!(reopened.id_table.get(&String::from("a")).unwrap(), None);
}

#[test]
fn tables_are_bound_to_their_partition_names() {
    let descriptor: TableDescriptor<String, u32> =
        TableDescriptor::new(String::from("id_table"));
    let column = descriptor.to_column_descriptor();
    assert_eq!(column.name, "id_table");

    let table: Table<String, u32> = descriptor.open();
    assert_eq!(table.len(), 0);
    let mut batch = Batch::new();
    table.put(&mut batch, &String::from("k"), &9).unwrap();
    assert_eq!(batch.len(), 1);
    assert_eq!(batch.entries[0].table, "id_table");
    assert_eq!(batch.entries[0].key, b"k".to_vec());
    assert_eq!(batch.entries[0].value, vec![9, 0, 0, 0]);
}
