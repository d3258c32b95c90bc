//! The storage engine: owner of the dictionary and the six index tables.
//! It interns terms into identifiers, resolves triples, fans each resolved
//! triple out into all six permutation tables, and stages every write of one
//! `index` call into a single batch so the substrate can commit them
//! all-or-nothing.

use vstd::bytes::spec_u32_to_le_bytes;
use vstd::prelude::*;
use vstd::utf8::encode_utf8;

use crate::batch::Batch;
use crate::index::{spec_shuffle, spec_type_name, type_with_id, IndexEntry, IndexKeyType};
use crate::index_key::IndexKey;
use crate::table::{Table, TableDescriptor};

verus! {

/// The abstract state of the engine: the bidirectional dictionary, the next
/// identifier to assign, and the rows of the six index partitions in the
/// fixed enumeration order of their key types.
pub ghost struct EngineState {
    pub ids: Map<Seq<char>, u32>,
    pub uris: Map<u32, Seq<char>>,
    pub counter: u32,
    pub indexes: Seq<Map<(u32, u32, u32), u32>>,
}

/// One staged write, abstractly: partition name, key bytes, value bytes.
pub type RowView = (Seq<char>, Seq<u8>, Seq<u8>);

/// The name of the partition mapping terms to identifiers.
pub open spec fn id_table_name() -> Seq<char> {
    "id_table"@
}

/// The name of the partition mapping identifiers back to terms.
pub open spec fn uri_table_name() -> Seq<char> {
    "uri_table"@
}

/// The marker stored under every index key; its content carries no meaning.
pub open spec fn index_marker() -> u32 {
    0
}

/// Well-formedness of the abstract state: the dictionary maps are mutually
/// inverse bijections over the identifiers assigned so far, every assigned
/// identifier is below the counter, and all six index partitions hold only
/// the marker value.
pub open spec fn state_wf(m: EngineState) -> bool {
    &&& forall|t: Seq<char>| #[trigger]
        m.ids.contains_key(t) ==> m.ids[t] < m.counter && m.uris.contains_key(m.ids[t])
            && m.uris[m.ids[t]] == t
    &&& forall|id: u32| #[trigger]
        m.uris.contains_key(id) ==> id < m.counter && m.ids.contains_key(m.uris[id])
            && m.ids[m.uris[id]] == id
    &&& m.indexes.len() == 6
    &&& forall|i: int, k: (u32, u32, u32)|
        0 <= i < 6 && #[trigger] m.indexes[i].contains_key(k) ==> m.indexes[i][k]
            == index_marker()
}

/// Interning one term: a known term keeps its identifier and changes
/// nothing; a new term is assigned the counter, recorded in both dictionary
/// directions, and the counter advances.
pub open spec fn intern_step(m: EngineState, t: Seq<char>) -> (EngineState, u32) {
    if m.ids.contains_key(t) {
        (m, m.ids[t])
    } else {
        (
            EngineState {
                ids: m.ids.insert(t, m.counter),
                uris: m.uris.insert(m.counter, t),
                counter: (m.counter + 1) as u32,
                indexes: m.indexes,
            },
            m.counter,
        )
    }
}

/// The dictionary rows staged when one term is interned: none for a known
/// term; for a new term, its forward row in the id partition and its reverse
/// row in the uri partition.
pub open spec fn intern_step_rows(m: EngineState, t: Seq<char>) -> Seq<RowView> {
    if m.ids.contains_key(t) {
        Seq::empty()
    } else {
        seq![
            (id_table_name(), encode_utf8(t), spec_u32_to_le_bytes(m.counter)),
            (uri_table_name(), spec_u32_to_le_bytes(m.counter), encode_utf8(t)),
        ]
    }
}

/// Interning the three terms of one triple, subject first.
pub open spec fn intern_triple(m: EngineState, e: Seq<Seq<char>>) -> (EngineState, (u32, u32, u32)) {
    let (m1, s) = intern_step(m, e[0]);
    let (m2, p) = intern_step(m1, e[1]);
    let (m3, o) = intern_step(m2, e[2]);
    (m3, (s, p, o))
}

/// The dictionary rows staged while interning one triple, in staging order.
pub open spec fn intern_triple_rows(m: EngineState, e: Seq<Seq<char>>) -> Seq<RowView> {
    let (m1, s) = intern_step(m, e[0]);
    let (m2, p) = intern_step(m1, e[1]);
    intern_step_rows(m, e[0]) + intern_step_rows(m1, e[1]) + intern_step_rows(m2, e[2])
}

/// Interning a whole batch of triples in order, collecting each triple's
/// resolved identifiers.
pub open spec fn intern_entries(m: EngineState, es: Seq<Seq<Seq<char>>>) -> (
    EngineState,
    Seq<(u32, u32, u32)>,
)
    decreases es.len(),
{
    if es.len() == 0 {
        (m, Seq::empty())
    } else {
        let (m1, ks) = intern_entries(m, es.drop_last());
        let (m2, k) = intern_triple(m1, es.last());
        (m2, ks.push(k))
    }
}

/// The dictionary rows staged while interning a whole batch, in order.
pub open spec fn intern_entries_rows(m: EngineState, es: Seq<Seq<Seq<char>>>) -> Seq<RowView>
    decreases es.len(),
{
    if es.len() == 0 {
        Seq::empty()
    } else {
        intern_entries_rows(m, es.drop_last()) + intern_triple_rows(
            intern_entries(m, es.drop_last()).0,
            es.last(),
        )
    }
}

/// One index partition after fanning a list of resolved triples into it:
/// each triple contributes its key permuted into the partition's order,
/// under the marker value.
pub open spec fn fanout_table(
    tab: Map<(u32, u32, u32), u32>,
    t: IndexKeyType,
    ks: Seq<(u32, u32, u32)>,
) -> Map<(u32, u32, u32), u32>
    decreases ks.len(),
{
    if ks.len() == 0 {
        tab
    } else {
        fanout_table(tab, t, ks.drop_last()).insert(spec_shuffle(t, ks.last()), index_marker())
    }
}

/// The rows staged while fanning the resolved triples into one partition.
pub open spec fn fanout_rows(t: IndexKeyType, ks: Seq<(u32, u32, u32)>) -> Seq<RowView> {
    Seq::new(
        ks.len(),
        |i: int|
            (
                spec_type_name(t),
                crate::index_key::spec_encode_triple(spec_shuffle(t, ks[i])),
                spec_u32_to_le_bytes(index_marker()),
            ),
    )
}

/// The rows staged while fanning the resolved triples into the first `n`
/// partitions, in enumeration order.
pub open spec fn fanout_rows_upto(n: int, ks: Seq<(u32, u32, u32)>) -> Seq<RowView>
    decreases n,
{
    if n <= 0 {
        Seq::empty()
    } else {
        fanout_rows_upto(n - 1, ks) + fanout_rows(type_with_id(n - 1), ks)
    }
}

/// The whole effect of one `index` call on the abstract state: intern every
/// term, then fan every resolved triple into all six partitions.
pub open spec fn apply_index(m: EngineState, es: Seq<Seq<Seq<char>>>) -> EngineState {
    let (m1, ks) = intern_entries(m, es);
    EngineState {
        ids: m1.ids,
        uris: m1.uris,
        counter: m1.counter,
        indexes: Seq::new(6, |i: int| fanout_table(m1.indexes[i], type_with_id(i), ks)),
    }
}

/// Every row one `index` call stages, in staging order: dictionary rows
/// first, then the fan-out rows partition by partition.
pub open spec fn index_rows(m: EngineState, es: Seq<Seq<Seq<char>>>) -> Seq<RowView> {
    intern_entries_rows(m, es) + fanout_rows_upto(6, intern_entries(m, es).1)
}

/// `a` holds every key of `b`, with the same value.
pub open spec fn dict_extends(a: Map<Seq<char>, u32>, b: Map<Seq<char>, u32>) -> bool {
    forall|t: Seq<char>| #[trigger] b.contains_key(t) ==> a.contains_key(t) && a[t] == b[t]
}

proof fn lemma_intern_step_extends(m: EngineState, t: Seq<char>)
    ensures
        dict_extends(intern_step(m, t).0.ids, m.ids),
        intern_step(m, t).0.ids.contains_key(t),
        intern_step(m, t).0.ids[t] == intern_step(m, t).1,
        intern_step(m, t).0.indexes == m.indexes,
{
}

proof fn lemma_intern_triple_extends(m: EngineState, e: Seq<Seq<char>>)
    ensures
        dict_extends(intern_triple(m, e).0.ids, m.ids),
        intern_triple(m, e).0.ids.contains_key(e[0]),
        intern_triple(m, e).0.ids[e[0]] == intern_triple(m, e).1.0,
        intern_triple(m, e).0.ids.contains_key(e[1]),
        intern_triple(m, e).0.ids[e[1]] == intern_triple(m, e).1.1,
        intern_triple(m, e).0.ids.contains_key(e[2]),
        intern_triple(m, e).0.ids[e[2]] == intern_triple(m, e).1.2,
        intern_triple(m, e).0.indexes == m.indexes,
{
    lemma_intern_step_extends(m, e[0]);
    lemma_intern_step_extends(intern_step(m, e[0]).0, e[1]);
    lemma_intern_step_extends(intern_step(intern_step(m, e[0]).0, e[1]).0, e[2]);
}

/// The three terms of one entry are present in `ids` under the components
/// of the resolved identifier triple `k`.
pub open spec fn entry_resolved(
    ids: Map<Seq<char>, u32>,
    e: Seq<Seq<char>>,
    k: (u32, u32, u32),
) -> bool {
    &&& ids.contains_key(e[0]) && ids[e[0]] == k.0
    &&& ids.contains_key(e[1]) && ids[e[1]] == k.1
    &&& ids.contains_key(e[2]) && ids[e[2]] == k.2
}

/// Every term of every entry is present in `ids` under the identifier the
/// batch resolved for it.
pub open spec fn resolves(
    ids: Map<Seq<char>, u32>,
    es: Seq<Seq<Seq<char>>>,
    ks: Seq<(u32, u32, u32)>,
) -> bool {
    forall|i: int| 0 <= i < es.len() ==> #[trigger] entry_resolved(ids, es[i], ks[i])
}

proof fn lemma_intern_entries_extends(m: EngineState, es: Seq<Seq<Seq<char>>>)
    ensures
        dict_extends(intern_entries(m, es).0.ids, m.ids),
        intern_entries(m, es).1.len() == es.len(),
        intern_entries(m, es).0.indexes == m.indexes,
        resolves(intern_entries(m, es).0.ids, es, intern_entries(m, es).1),
    decreases es.len(),
{
    if es.len() > 0 {
        lemma_intern_entries_extends(m, es.drop_last());
        let pre = intern_entries(m, es.drop_last());
        lemma_intern_triple_extends(pre.0, es.last());
        let last = intern_triple(pre.0, es.last());
        let full = intern_entries(m, es);
        assert(full.0 == last.0);
        assert(full.1 == pre.1.push(last.1));
        assert forall|i: int| 0 <= i < es.len() implies #[trigger] entry_resolved(
            full.0.ids,
            es[i],
            full.1[i],
        ) by {
            if i < es.len() - 1 {
                assert(es.drop_last()[i] == es[i]);
                assert(full.1[i] == pre.1[i]);
                assert(entry_resolved(pre.0.ids, es.drop_last()[i], pre.1[i]));
            } else {
                assert(es.last() == es[i]);
                assert(full.1[i] == last.1);
            }
        }
    }
}

proof fn lemma_intern_entries_noop(big: EngineState, m: EngineState, es: Seq<Seq<Seq<char>>>)
    requires
        resolves(big.ids, es, intern_entries(m, es).1),
    ensures
        intern_entries(big, es).0 == big,
        intern_entries(big, es).1 == intern_entries(m, es).1,
    decreases es.len(),
{
    if es.len() == 0 {
        assert(intern_entries(big, es).1 =~= intern_entries(m, es).1);
    } else {
        lemma_intern_entries_extends(m, es.drop_last());
        let pre = intern_entries(m, es.drop_last());
        let last = intern_triple(pre.0, es.last());
        let full = intern_entries(m, es);
        assert(full.0 == last.0);
        assert(full.1 == pre.1.push(last.1));
        assert forall|i: int| 0 <= i < es.drop_last().len() implies #[trigger] entry_resolved(
            big.ids,
            es.drop_last()[i],
            pre.1[i],
        ) by {
            assert(es.drop_last()[i] == es[i]);
            assert(full.1[i] == pre.1[i]);
            assert(entry_resolved(big.ids, es[i], full.1[i]));
        }
        lemma_intern_entries_noop(big, m, es.drop_last());
        let e = es.last();
        let k = full.1[es.len() - 1];
        assert(k == last.1);
        assert(entry_resolved(big.ids, es[es.len() - 1], full.1[es.len() - 1]));
        assert(big.ids.contains_key(e[0]) && big.ids[e[0]] == k.0);
        assert(big.ids.contains_key(e[1]) && big.ids[e[1]] == k.1);
        assert(big.ids.contains_key(e[2]) && big.ids[e[2]] == k.2);
        assert(intern_triple(big, e).0 == big);
        assert(intern_triple(big, e).1 == k);
        assert(intern_entries(big, es).1 =~= intern_entries(m, es).1);
    }
}

proof fn lemma_fanout_table_contains(
    tab: Map<(u32, u32, u32), u32>,
    t: IndexKeyType,
    ks: Seq<(u32, u32, u32)>,
    k: (u32, u32, u32),
)
    ensures
        fanout_table(tab, t, ks).contains_key(k) <==> (tab.contains_key(k) || exists|j: int|
            0 <= j < ks.len() && k == spec_shuffle(t, ks[j])),
        (exists|j: int| 0 <= j < ks.len() && k == spec_shuffle(t, ks[j]))
            ==> fanout_table(tab, t, ks)[k] == index_marker(),
        !(exists|j: int| 0 <= j < ks.len() && k == spec_shuffle(t, ks[j])) && tab.contains_key(k)
            ==> fanout_table(tab, t, ks)[k] == tab[k],
    decreases ks.len(),
{
    if ks.len() > 0 {
        lemma_fanout_table_contains(tab, t, ks.drop_last(), k);
        if k == spec_shuffle(t, ks.last()) {
            assert(0 <= ks.len() - 1 < ks.len() && k == spec_shuffle(t, ks[ks.len() - 1]));
        } else {
            if exists|j: int| 0 <= j < ks.len() && k == spec_shuffle(t, ks[j]) {
                let j = choose|j: int| 0 <= j < ks.len() && k == spec_shuffle(t, ks[j]);
                assert(0 <= j < ks.drop_last().len() && k == spec_shuffle(
                    t,
                    ks.drop_last()[j],
                ));
            }
            if exists|j: int| 0 <= j < ks.drop_last().len() && k == spec_shuffle(
                t,
                ks.drop_last()[j],
            ) {
                let j = choose|j: int|
                    0 <= j < ks.drop_last().len() && k == spec_shuffle(t, ks.drop_last()[j]);
                assert(0 <= j < ks.len() && k == spec_shuffle(t, ks[j]));
            }
        }
    }
}

proof fn lemma_fanout_table_absorb(
    tab: Map<(u32, u32, u32), u32>,
    t: IndexKeyType,
    ks: Seq<(u32, u32, u32)>,
)
    requires
        forall|j: int|
            0 <= j < ks.len() ==> tab.contains_key(#[trigger] spec_shuffle(t, ks[j]))
                && tab[spec_shuffle(t, ks[j])] == index_marker(),
    ensures
        fanout_table(tab, t, ks) == tab,
    decreases ks.len(),
{
    if ks.len() > 0 {
        assert forall|j: int| 0 <= j < ks.drop_last().len() implies tab.contains_key(
            #[trigger] spec_shuffle(t, ks.drop_last()[j]),
        ) && tab[spec_shuffle(t, ks.drop_last()[j])] == index_marker() by {
            assert(ks.drop_last()[j] == ks[j]);
        }
        lemma_fanout_table_absorb(tab, t, ks.drop_last());
        assert(tab.contains_key(spec_shuffle(t, ks[ks.len() - 1])));
        assert(fanout_table(tab, t, ks) =~= tab);
    }
}

/// Every entry holds exactly three components.
pub open spec fn entries_wf(es: Seq<Seq<Seq<char>>>) -> bool {
    forall|i: int| 0 <= i < es.len() ==> #[trigger] es[i].len() == 3
}

/// The abstract triples a batch of entries holds, in order.
pub open spec fn entries_view(entries: Seq<IndexEntry<String>>) -> Seq<Seq<Seq<char>>> {
    Seq::new(entries.len(), |i: int| entries[i]@)
}

/// Fan a list of resolved triples into one index table: permute each triple
/// into the table's key order, stage the row, and apply it.
#[verifier::loop_isolation(false)]
fn fanout_into(
    table: &mut Table<IndexKey, u32>,
    key_type: IndexKeyType,
    resolved: &Vec<(u32, u32, u32)>,
    batch: &mut Batch,
)
    requires
        old(table).wf(),
        old(table).spec_name() == spec_type_name(key_type),
        forall|k: (u32, u32, u32)| #[trigger]
            old(table)@.contains_key(k) ==> old(table)@[k] == index_marker(),
    ensures
        final(table).wf(),
        final(table).spec_name() == old(table).spec_name(),
        final(table)@ == fanout_table(old(table)@, key_type, resolved@),
        final(batch)@ == old(batch)@ + fanout_rows(key_type, resolved@),
        forall|k: (u32, u32, u32)| #[trigger]
            final(table)@.contains_key(k) ==> final(table)@[k] == index_marker(),
{
    let index_value: u32 = 0;
    let ghost ks = resolved@;
    proof {
        assert(ks.take(0) =~= Seq::<(u32, u32, u32)>::empty());
        assert(batch@ =~= old(batch)@ + fanout_rows(key_type, ks.take(0)));
    }
    let mut j: usize = 0;
    while j < resolved.len()
        invariant
            j <= ks.len(),
            ks == resolved@,
            table.wf(),
            table.spec_name() == spec_type_name(key_type),
            table@ == fanout_table(old(table)@, key_type, ks.take(j as int)),
            batch@ == old(batch)@ + fanout_rows(key_type, ks.take(j as int)),
            forall|k: (u32, u32, u32)| #[trigger]
                table@.contains_key(k) ==> table@[k] == index_marker(),
        decreases ks.len() - j,
    {
        let triple = resolved[j];
        let src = [triple.0, triple.1, triple.2];
        let mut dest = [0u32, 0u32, 0u32];
        key_type.shuffle_triple_into(&src, &mut dest);
        let key = IndexKey::from(dest);
        proof {
            assert(key@ == spec_shuffle(key_type, ks[j as int]));
        }
        let _ = table.put(batch, &key, &index_value);
        table.apply(key, index_value);
        proof {
            let row = (
                spec_type_name(key_type),
                crate::index_key::spec_encode_triple(spec_shuffle(key_type, ks[j as int])),
                spec_u32_to_le_bytes(index_marker()),
            );
            assert(ks.take(j + 1).drop_last() =~= ks.take(j as int));
            assert(ks.take(j + 1).last() == ks[j as int]);
            assert(fanout_rows(key_type, ks.take(j + 1)) =~= fanout_rows(
                key_type,
                ks.take(j as int),
            ).push(row));
            assert(batch@ =~= (old(batch)@ + fanout_rows(key_type, ks.take(j as int))).push(row));
            assert(batch@ =~= old(batch)@ + fanout_rows(key_type, ks.take(j + 1)));
        }
        j = j + 1;
    }
    proof {
        assert(ks.take(ks.len() as int) =~= ks);
    }
}

/// The storage engine: the two dictionary tables, the six index tables in
/// enumeration order, and the in-memory identifier counter, seeded to zero
/// when the engine opens.
pub struct StorageEngine {
    pub id_table: Table<String, u32>,
    pub uri_table: Table<u32, String>,
    pub index_tables: Vec<Table<IndexKey, u32>>,
    pub counter: u32,
}

impl View for StorageEngine {
    type V = EngineState;

    open spec fn view(&self) -> EngineState {
        EngineState {
            ids: self.id_table@,
            uris: self.uri_table@,
            counter: self.counter,
            indexes: Seq::new(6, |i: int| self.index_tables@[i]@),
        }
    }
}

impl StorageEngine {
    /// The tables are well formed, bound to their fixed partition names, and
    /// the abstract state is well formed.
    pub open spec fn wf(&self) -> bool {
        &&& self.id_table.wf()
        &&& self.uri_table.wf()
        &&& self.index_tables@.len() == 6
        &&& forall|i: int| 0 <= i < 6 ==> (#[trigger] self.index_tables@[i]).wf()
        &&& forall|i: int|
            0 <= i < 6 ==> (#[trigger] self.index_tables@[i]).spec_name() == spec_type_name(
                type_with_id(i),
            )
        &&& self.id_table.spec_name() == id_table_name()
        &&& self.uri_table.spec_name() == uri_table_name()
        &&& state_wf(self@)
    }

    /// Open a new engine over the substrate at the given path. The
    /// partitions start out bound and empty and the identifier counter at
    /// zero; binding in-memory partitions cannot fail.
    pub fn open(path: &str) -> (r: Result<StorageEngine, String>)
        ensures
            r matches Ok(engine) && engine.wf() && engine@ == (EngineState {
                ids: Map::<Seq<char>, u32>::empty(),
                uris: Map::<u32, Seq<char>>::empty(),
                counter: 0u32,
                indexes: Seq::new(6, |i: int| Map::<(u32, u32, u32), u32>::empty()),
            }),
    {
        let id_table_descriptor = TableDescriptor::<String, u32>::new("id_table".to_owned());
        let uri_table_descriptor = TableDescriptor::<u32, String>::new("uri_table".to_owned());

        let index_key_types = IndexKeyType::values();
        let mut index_tables: Vec<Table<IndexKey, u32>> = Vec::new();
        let mut offset: usize = 0;
        while offset < 6
            invariant
                offset <= 6,
                index_tables@.len() == offset,
                forall|i: int| 0 <= i < offset ==> (#[trigger] index_tables@[i]).wf(),
                forall|i: int|
                    0 <= i < offset ==> (#[trigger] index_tables@[i]).spec_name()
                        == spec_type_name(type_with_id(i)),
                forall|i: int|
                    0 <= i < offset ==> (#[trigger] index_tables@[i])@ =~= Map::<
                        (u32, u32, u32),
                        u32,
                    >::empty(),
                forall|i: int| 0 <= i < 6 ==> index_key_types@[i] == type_with_id(i),
            decreases 6 - offset,
        {
            let key_type = index_key_types[offset];
            let descriptor = TableDescriptor::<IndexKey, u32>::new(key_type.name());
            index_tables.push(descriptor.open());
            offset = offset + 1;
        }

        let engine = StorageEngine {
            id_table: id_table_descriptor.open(),
            uri_table: uri_table_descriptor.open(),
            index_tables,
            counter: 0,
        };
        proof {
            assert(engine@.indexes =~= Seq::new(
                6,
                |i: int| Map::<(u32, u32, u32), u32>::empty(),
            ));
        }
        // The in-memory partitions never consult the path; the substrate
        // shell that persists them opens the store there.
        let _ = path;
        Ok(engine)
    }

    /// Intern a single term: reuse its identifier if the dictionary already
    /// holds it, otherwise assign the next counter value and stage both
    /// dictionary rows into the batch.
    fn store(&mut self, value: &String, batch: &mut Batch) -> (r: Result<u32, String>)
        requires
            old(self).wf(),
            old(self)@.counter < u32::MAX,
        ensures
            final(self).wf(),
            r is Ok,
            final(self)@ == intern_step(old(self)@, value@).0,
            r matches Ok(id) && id == intern_step(old(self)@, value@).1,
            final(batch)@ =~= old(batch)@ + intern_step_rows(old(self)@, value@),
            final(self).index_tables@ == old(self).index_tables@,
    {
        let found = match self.id_table.get(value) {
            Ok(found) => found,
            Err(message) => {
                return Err(message);
            },
        };
        if let Some(existing) = found {
            proof {
                assert(batch@ =~= old(batch)@ + intern_step_rows(old(self)@, value@));
            }
            return Ok(existing);
        }
        let counter = self.counter;
        let _ = self.id_table.put(batch, value, &counter);
        let _ = self.uri_table.put(batch, &counter, value);
        self.id_table.apply(value.clone(), counter);
        self.uri_table.apply(counter, value.clone());
        self.counter = self.counter + 1;
        proof {
            let m0 = old(self)@;
            let m1 = intern_step(m0, value@).0;
            assert(self@.indexes =~= m0.indexes);
            assert(self@ == m1);
            assert(batch@ =~= old(batch)@ + intern_step_rows(m0, value@));
            assert forall|t: Seq<char>| #[trigger] m1.ids.contains_key(t) implies m1.ids[t]
                < m1.counter && m1.uris.contains_key(m1.ids[t]) && m1.uris[m1.ids[t]] == t by {
                if t != value@ {
                    assert(m0.ids.contains_key(t));
                    assert(m0.ids[t] != m0.counter);
                }
            }
            assert forall|id: u32| #[trigger] m1.uris.contains_key(id) implies id < m1.counter
                && m1.ids.contains_key(m1.uris[id]) && m1.ids[m1.uris[id]] == id by {
                if id != m0.counter {
                    assert(m0.uris.contains_key(id));
                    assert(m0.uris[id] != value@) by {
                        if m0.uris[id] == value@ {
                            assert(m0.ids.contains_key(value@));
                        }
                    }
                }
            }
        }
        Ok(counter)
    }

    /// Consume a batch of triples into the engine's indexes: intern every
    /// term, resolve each triple to identifiers, fan each resolved triple
    /// into all six index tables, and return the batch of staged rows so the
    /// substrate can commit them all at once. Staging into memory cannot
    /// fail, so every allowed call succeeds.
    #[verifier::loop_isolation(false)]
    pub fn index(&mut self, entries: Vec<IndexEntry<String>>) -> (r: Result<Batch, String>)
        requires
            old(self).wf(),
            entries_wf(entries_view(entries@)),
            old(self)@.counter + 3 * entries@.len() <= u32::MAX,
        ensures
            final(self).wf(),
            r is Ok,
            final(self)@ == apply_index(old(self)@, entries_view(entries@)),
            r matches Ok(staged) && staged@ == index_rows(old(self)@, entries_view(entries@)),
    {
        let ghost m0 = old(self)@;
        let ghost es = entries_view(entries@);
        let mut batch = Batch::new();
        let mut resolved: Vec<(u32, u32, u32)> = Vec::new();

        proof {
            assert(es.take(0) =~= Seq::<Seq<Seq<char>>>::empty());
            assert(batch@ =~= intern_entries_rows(m0, es.take(0)));
            assert(resolved@ =~= intern_entries(m0, es.take(0)).1);
        }

        let entry_count = entries.len();
        let mut offset: usize = 0;
        while offset < entry_count
            invariant
                offset <= es.len(),
                self.wf(),
                self@ == intern_entries(m0, es.take(offset as int)).0,
                resolved@ == intern_entries(m0, es.take(offset as int)).1,
                batch@ == intern_entries_rows(m0, es.take(offset as int)),
                self@.counter <= m0.counter + 3 * offset,
                self.index_tables@ == old(self).index_tables@,
            decreases es.len() - offset,
        {
            let ghost mi = self@;
            let entry = &entries[offset];
            proof {
                assert(es[offset as int] == entry@);
                assert(entry.components@.len() == 3);
                assert(entry@[0] == entry.components@[0]@);
                assert(entry@[1] == entry.components@[1]@);
                assert(entry@[2] == entry.components@[2]@);
            }
            let sid = match self.store(&entry.components[0], &mut batch) {
                Ok(v) => v,
                Err(message) => {
                    return Err(message);
                },
            };
            let pid = match self.store(&entry.components[1], &mut batch) {
                Ok(v) => v,
                Err(message) => {
                    return Err(message);
                },
            };
            let oid = match self.store(&entry.components[2], &mut batch) {
                Ok(v) => v,
                Err(message) => {
                    return Err(message);
                },
            };
            resolved.push((sid, pid, oid));
            proof {
                assert(es.take(offset + 1).drop_last() =~= es.take(offset as int));
                assert(es.take(offset + 1).last() == es[offset as int]);
                assert(self@ == intern_triple(mi, es[offset as int]).0);
                assert((sid, pid, oid) == intern_triple(mi, es[offset as int]).1);
                assert(resolved@ =~= intern_entries(m0, es.take(offset + 1)).1);
                assert(batch@ =~= intern_entries_rows(m0, es.take(offset + 1)));
            }
            offset = offset + 1;
        }

        proof {
            assert(es.take(es.len() as int) =~= es);
        }
        let ghost m1 = self@;
        let ghost ks = intern_entries(m0, es).1;
        let ghost saved = *self;
        proof {
            assert(batch@ =~= intern_entries_rows(m0, es) + fanout_rows_upto(0, ks));
        }

        let index_key_types = IndexKeyType::values();
        let mut t: usize = 0;
        while t < 6
            invariant
                t <= 6,
                self.id_table == saved.id_table,
                self.uri_table == saved.uri_table,
                self.counter == saved.counter,
                self.index_tables@.len() == 6,
                forall|i: int| t <= i < 6 ==> self.index_tables@[i] == saved.index_tables@[i],
                forall|i: int|
                    0 <= i < t ==> (#[trigger] self.index_tables@[i]).wf()
                        && self.index_tables@[i].spec_name() == spec_type_name(type_with_id(i))
                        && self.index_tables@[i]@ == fanout_table(
                        m1.indexes[i],
                        type_with_id(i),
                        ks,
                    ),
                forall|i: int, k: (u32, u32, u32)|
                    0 <= i < t && #[trigger] self.index_tables@[i]@.contains_key(k)
                        ==> self.index_tables@[i]@[k] == index_marker(),
                batch@ == intern_entries_rows(m0, es) + fanout_rows_upto(t as int, ks),
                resolved@ == ks,
            decreases 6 - t,
        {
            let key_type = index_key_types[t];
            proof {
                assert(self.index_tables@[t as int] == saved.index_tables@[t as int]);
                assert(saved.index_tables@[t as int]@ == m1.indexes[t as int]);
            }
            fanout_into(&mut self.index_tables[t], key_type, &resolved, &mut batch);
            proof {
                assert(batch@ =~= intern_entries_rows(m0, es) + fanout_rows_upto(t + 1, ks));
            }
            t = t + 1;
        }

        proof {
            assert(self@.indexes =~= apply_index(m0, es).indexes);
            assert(self@ == apply_index(m0, es));
            assert(batch@ =~= index_rows(m0, es));
        }
        Ok(batch)
    }
}

/// Dictionary bijection, first half: in a well-formed state, two distinct
/// interned terms always carry distinct identifiers.
pub proof fn lemma_distinct_terms_distinct_ids(m: EngineState, t1: Seq<char>, t2: Seq<char>)
    requires
        state_wf(m),
        m.ids.contains_key(t1),
        m.ids.contains_key(t2),
        t1 != t2,
    ensures
        m.ids[t1] != m.ids[t2],
{
    if m.ids[t1] == m.ids[t2] {
        assert(m.uris[m.ids[t1]] == t1);
        assert(m.uris[m.ids[t2]] == t2);
    }
}

/// Dictionary bijection, second half: interning a term again, in the same
/// or a later call, yields the same identifier, changes nothing — in
/// particular the counter does not advance — and stages no rows.
pub proof fn lemma_intern_idempotent(m: EngineState, t: Seq<char>)
    ensures
        intern_step(intern_step(m, t).0, t).0 == intern_step(m, t).0,
        intern_step(intern_step(m, t).0, t).1 == intern_step(m, t).1,
        intern_step_rows(intern_step(m, t).0, t) == Seq::<RowView>::empty(),
{
}

/// Idempotent re-indexing: indexing the same batch of triples twice leaves
/// exactly the state that indexing it once leaves — the dictionary, the
/// counter and the rows of every index partition are unchanged by the
/// second pass, because index rows are keyed and the re-inserted keys
/// overwrite identically.
pub proof fn lemma_index_idempotent(m: EngineState, es: Seq<Seq<Seq<char>>>)
    ensures
        apply_index(apply_index(m, es), es) == apply_index(m, es),
{
    let m1 = intern_entries(m, es).0;
    let ks = intern_entries(m, es).1;
    let m2 = apply_index(m, es);
    lemma_intern_entries_extends(m, es);
    lemma_intern_entries_noop(m2, m, es);
    assert(intern_entries(m2, es).0 == m2);
    assert(intern_entries(m2, es).1 == ks);
    assert forall|i: int| 0 <= i < 6 implies fanout_table(
        m2.indexes[i],
        type_with_id(i),
        ks,
    ) == m2.indexes[i] by {
        let t = type_with_id(i);
        let tab2 = fanout_table(m1.indexes[i], t, ks);
        assert(m2.indexes[i] == tab2);
        assert forall|j: int| 0 <= j < ks.len() implies tab2.contains_key(
            #[trigger] spec_shuffle(t, ks[j]),
        ) && tab2[spec_shuffle(t, ks[j])] == index_marker() by {
            lemma_fanout_table_contains(m1.indexes[i], t, ks, spec_shuffle(t, ks[j]));
        }
        lemma_fanout_table_absorb(tab2, t, ks);
    }
    assert(apply_index(m2, es).indexes =~= m2.indexes);
    assert(apply_index(m2, es) == m2);
}

/// Fan-out completeness: after one `index` call, an index partition holds a
/// key exactly when it held it before or the key is the permutation, in
/// that partition's key order, of one of the call's resolved triples.
pub proof fn lemma_fanout_completeness(
    m: EngineState,
    es: Seq<Seq<Seq<char>>>,
    i: int,
    k: (u32, u32, u32),
)
    requires
        0 <= i < 6,
        m.indexes.len() == 6,
    ensures
        apply_index(m, es).indexes[i].contains_key(k) <==> (m.indexes[i].contains_key(k)
            || exists|j: int|
            0 <= j < intern_entries(m, es).1.len() && k == spec_shuffle(
                type_with_id(i),
                intern_entries(m, es).1[j],
            )),
{
    lemma_intern_entries_extends(m, es);
    lemma_fanout_table_contains(
        intern_entries(m, es).0.indexes[i],
        type_with_id(i),
        intern_entries(m, es).1,
        k,
    );
}

} // verus!
