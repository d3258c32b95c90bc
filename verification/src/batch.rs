//! A batch of staged writes. Tables stage encoded rows here; nothing in the
//! batch is visible until its owner commits every row at once, so a batch
//! that is dropped instead of committed leaves no trace.

use vstd::prelude::*;

verus! {

/// One staged write: the name of the partition it belongs to and the encoded
/// key and value bytes to store there.
pub struct BatchEntry {
    pub table: String,
    pub key: Vec<u8>,
    pub value: Vec<u8>,
}

impl View for BatchEntry {
    type V = (Seq<char>, Seq<u8>, Seq<u8>);

    open spec fn view(&self) -> (Seq<char>, Seq<u8>, Seq<u8>) {
        (self.table@, self.key@, self.value@)
    }
}

/// An ordered collection of staged writes across any number of partitions,
/// committed all-or-nothing by whoever owns the substrate.
pub struct Batch {
    pub entries: Vec<BatchEntry>,
}

impl View for Batch {
    type V = Seq<(Seq<char>, Seq<u8>, Seq<u8>)>;

    open spec fn view(&self) -> Seq<(Seq<char>, Seq<u8>, Seq<u8>)> {
        Seq::new(self.entries@.len(), |i: int| self.entries@[i]@)
    }
}

impl Batch {
    /// An empty batch with nothing staged.
    pub fn new() -> (r: Batch)
        ensures
            r@ =~= Seq::<(Seq<char>, Seq<u8>, Seq<u8>)>::empty(),
    {
        Batch { entries: Vec::new() }
    }

    /// The number of staged writes.
    pub fn len(&self) -> (r: usize)
        ensures
            r == self@.len(),
    {
        self.entries.len()
    }

    /// Stage one write.
    pub(crate) fn push(&mut self, table: String, key: Vec<u8>, value: Vec<u8>)
        ensures
            final(self)@ =~= old(self)@.push((table@, key@, value@)),
    {
        self.entries.push(BatchEntry { table, key, value });
    }
}

} // verus!
