//! A typed, ordered logical partition: a table binds a partition name to one
//! key type and one value type, answers point lookups, and stages writes into
//! a caller-supplied batch. A table never commits on its own; commit
//! authority belongs to the storage engine that owns the partitions, so
//! several tables can be updated atomically together.

use core::marker::PhantomData;
use vstd::prelude::*;

use crate::batch::Batch;
use crate::table_value::TableValue;

verus! {

/// The rows of a partition, abstracted to a map from key views to value
/// views.
pub open spec fn rows_map<K: TableValue, V: TableValue>(s: Seq<(K, V)>) -> Map<K::V, V::V>
    decreases s.len(),
{
    if s.len() == 0 {
        Map::empty()
    } else {
        rows_map(s.drop_last()).insert(s.last().0@, s.last().1@)
    }
}

/// No two rows share a key view.
pub open spec fn distinct_keys<K: TableValue, V: TableValue>(s: Seq<(K, V)>) -> bool {
    forall|i: int, j: int| 0 <= i < j < s.len() ==> s[i].0@ != s[j].0@
}

/// A key view is in the abstract map exactly when some row holds it.
pub proof fn lemma_rows_map_contains<K: TableValue, V: TableValue>(s: Seq<(K, V)>, k: K::V)
    ensures
        rows_map(s).contains_key(k) <==> exists|i: int| 0 <= i < s.len() && s[i].0@ == k,
    decreases s.len(),
{
    if s.len() > 0 {
        lemma_rows_map_contains(s.drop_last(), k);
        if s.last().0@ == k {
            assert(s[s.len() - 1].0@ == k);
        } else if rows_map(s).contains_key(k) {
            let i = choose|i: int| 0 <= i < s.drop_last().len() && s.drop_last()[i].0@ == k;
            assert(s[i].0@ == k);
        } else if exists|i: int| 0 <= i < s.len() && s[i].0@ == k {
            let i = choose|i: int| 0 <= i < s.len() && s[i].0@ == k;
            assert(s.drop_last()[i].0@ == k);
        }
    }
}

/// With distinct keys, each row's key maps to that row's value.
pub proof fn lemma_rows_map_index<K: TableValue, V: TableValue>(s: Seq<(K, V)>, i: int)
    requires
        distinct_keys(s),
        0 <= i < s.len(),
    ensures
        rows_map(s).contains_key(s[i].0@),
        rows_map(s)[s[i].0@] == s[i].1@,
    decreases s.len(),
{
    if i == s.len() - 1 {
    } else {
        lemma_rows_map_index(s.drop_last(), i);
        assert(s.drop_last()[i] == s[i]);
        assert(s[i].0@ != s.last().0@);
    }
}

/// With distinct keys, the abstract map has exactly one entry per row.
pub proof fn lemma_rows_map_len<K: TableValue, V: TableValue>(s: Seq<(K, V)>)
    requires
        distinct_keys(s),
    ensures
        rows_map(s).dom().finite(),
        rows_map(s).dom().len() == s.len(),
    decreases s.len(),
{
    if s.len() > 0 {
        lemma_rows_map_len(s.drop_last());
        lemma_rows_map_contains(s.drop_last(), s.last().0@);
        assert(forall|i: int|
            0 <= i < s.drop_last().len() ==> s.drop_last()[i].0@ != s.last().0@);
        assert(!rows_map(s.drop_last()).contains_key(s.last().0@));
    }
}

/// An iterator over a table that will yield its values in partition order.
pub struct TableIterator<V: TableValue> {
    _phantom_val: PhantomData<V>,
}

/// What the substrate needs to create or bind one partition: its name. The
/// ordering rule the partition must install is [`crate::cmp_encoded`] at the
/// descriptor's key type.
pub struct ColumnDescriptor {
    pub name: String,
}

/// A recipe for a table: the partition name together with the key and value
/// types the partition will hold.
pub struct TableDescriptor<K: TableValue, V: TableValue> {
    name: String,
    _phantom_key: PhantomData<K>,
    _phantom_val: PhantomData<V>,
}

impl<K: TableValue, V: TableValue> TableDescriptor<K, V> {
    /// The partition name this descriptor binds.
    pub closed spec fn spec_name(&self) -> Seq<char> {
        self.name@
    }

    /// Describe a table over the named partition.
    pub fn new(name: String) -> (r: Self)
        ensures
            r.spec_name() == name@,
    {
        TableDescriptor { name, _phantom_key: PhantomData, _phantom_val: PhantomData }
    }

    /// What the substrate needs to create this table's partition.
    pub fn to_column_descriptor(&self) -> (r: ColumnDescriptor)
        ensures
            r.name@ == self.spec_name(),
    {
        ColumnDescriptor { name: self.name.clone() }
    }

    /// Bind the described table, initially empty.
    pub fn open(&self) -> (r: Table<K, V>)
        ensures
            r.wf(),
            r.spec_name() == self.spec_name(),
            r@ =~= Map::<K::V, V::V>::empty(),
    {
        Table { name: self.name.clone(), entries: Vec::new() }
    }
}

/// A typed view of one ordered partition: the committed rows, plus the
/// partition name that staged writes carry into a batch.
pub struct Table<K: TableValue, V: TableValue> {
    name: String,
    entries: Vec<(K, V)>,
}

impl<K: TableValue, V: TableValue> View for Table<K, V> {
    type V = Map<K::V, V::V>;

    closed spec fn view(&self) -> Map<K::V, V::V> {
        rows_map(self.entries@)
    }
}

impl<K: TableValue, V: TableValue> Table<K, V> {
    /// The name of the partition this table is bound to.
    pub closed spec fn spec_name(&self) -> Seq<char> {
        self.name@
    }

    /// No two committed rows share a key.
    pub closed spec fn wf(&self) -> bool {
        distinct_keys(self.entries@)
    }

    /// The number of committed rows.
    pub fn len(&self) -> (r: usize)
        requires
            self.wf(),
        ensures
            r == self@.dom().len(),
    {
        proof {
            lemma_rows_map_len(self.entries@);
        }
        self.entries.len()
    }

    /// Look up the value committed under `key`. Absence is `None`, not an
    /// error; the in-memory partition itself cannot fail a lookup.
    pub fn get(&self, key: &K) -> (r: Result<Option<V>, String>)
        requires
            self.wf(),
        ensures
            r is Ok,
            self@.contains_key(key@) ==> (r matches Ok(Some(v)) && v@ == self@[key@]),
            !self@.contains_key(key@) ==> (r matches Ok(None)),
    {
        let ghost s = self.entries@;
        let mut i: usize = 0;
        while i < self.entries.len()
            invariant
                i <= s.len(),
                s == self.entries@,
                distinct_keys(s),
                forall|j: int| 0 <= j < i ==> s[j].0@ != key@,
            decreases s.len() - i,
        {
            let row = &self.entries[i];
            let order = row.0.compare(key);
            proof {
                K::lemma_cmp_eq(s[i as int].0@, key@);
            }
            if matches!(order, core::cmp::Ordering::Equal) {
                proof {
                    lemma_rows_map_index(s, i as int);
                }
                return Ok(Some(row.1.duplicate()));
            }
            i = i + 1;
        }
        proof {
            lemma_rows_map_contains(s, key@);
        }
        Ok(None)
    }

    /// Stage a write of `key -> value` into `batch`, encoded for this
    /// table's partition. Nothing is committed and the table is unchanged;
    /// staging into an in-memory batch cannot fail.
    pub fn put(&self, batch: &mut Batch, key: &K, value: &V) -> (r: Result<(), String>)
        ensures
            r is Ok,
            final(batch)@ =~= old(batch)@.push(
                (self.spec_name(), K::spec_encode(key@), V::spec_encode(value@)),
            ),
    {
        let encoded_key = key.encode();
        let encoded_value = value.encode();
        batch.push(self.name.clone(), encoded_key, encoded_value);
        Ok(())
    }

    /// Apply one committed write to the rows: the engine calls this for each
    /// staged row when a batch commits.
    pub(crate) fn apply(&mut self, key: K, value: V)
        requires
            old(self).wf(),
            old(self)@.contains_key(key@) ==> old(self)@[key@] == value@,
        ensures
            final(self).wf(),
            final(self).spec_name() == old(self).spec_name(),
            final(self)@ =~= old(self)@.insert(key@, value@),
    {
        let ghost s = self.entries@;
        let mut i: usize = 0;
        while i < self.entries.len()
            invariant
                i <= s.len(),
                s == self.entries@,
                distinct_keys(s),
                old(self)@.contains_key(key@) ==> old(self)@[key@] == value@,
                old(self)@ == rows_map(s),
                forall|j: int| 0 <= j < i ==> s[j].0@ != key@,
            decreases s.len() - i,
        {
            let row = &self.entries[i];
            let order = row.0.compare(&key);
            proof {
                K::lemma_cmp_eq(s[i as int].0@, key@);
            }
            if matches!(order, core::cmp::Ordering::Equal) {
                proof {
                    lemma_rows_map_index(s, i as int);
                    lemma_rows_map_contains(s, key@);
                    assert(old(self)@.insert(key@, value@) =~= old(self)@);
                }
                return ;
            }
            i = i + 1;
        }
        proof {
            lemma_rows_map_contains(s, key@);
        }
        self.entries.push((key, value));
        proof {
            assert(self.entries@.drop_last() =~= s);
        }
    }
}

} // verus!
