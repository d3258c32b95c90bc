//! The 12-byte key of an index partition: three 32-bit identifiers in the
//! order fixed by the partition's permutation, encoded little-endian and
//! ordered field by field on the decoded values.

use core::cmp::Ordering;
use vstd::bytes::{lemma_auto_spec_u32_to_from_le_bytes, spec_u32_to_le_bytes, u32_from_le_bytes,
    u32_to_le_bytes};
use vstd::prelude::*;
use vstd::slice::slice_subrange;

use crate::table_value::TableValue;

verus! {

/// A fixed-length key of three term identifiers. Its abstract view is the
/// plain triple of identifiers in key order.
#[derive(Debug, PartialEq, Eq, PartialOrd, Ord)]
pub struct IndexKey {
    components: [u32; 3],
}

impl View for IndexKey {
    type V = (u32, u32, u32);

    closed spec fn view(&self) -> (u32, u32, u32) {
        (self.components[0], self.components[1], self.components[2])
    }
}

impl IndexKey {
    /// Build a key from its three components in key order.
    pub fn from(components: [u32; 3]) -> (r: Self)
        ensures
            r@ == (components[0], components[1], components[2]),
    {
        IndexKey { components }
    }

    /// The three components in key order.
    pub fn parts(&self) -> (r: [u32; 3])
        ensures
            (r[0], r[1], r[2]) == self@,
    {
        self.components
    }
}

/// The 12 bytes that encode a triple of identifiers: three little-endian
/// 32-bit fields, concatenated.
pub open spec fn spec_encode_triple(v: (u32, u32, u32)) -> Seq<u8> {
    spec_u32_to_le_bytes(v.0) + spec_u32_to_le_bytes(v.1) + spec_u32_to_le_bytes(v.2)
}

/// Field-by-field order on identifier triples: the first differing field
/// decides.
pub open spec fn spec_cmp_triple(a: (u32, u32, u32), b: (u32, u32, u32)) -> Ordering {
    if a.0 != b.0 {
        u32::spec_cmp(a.0, b.0)
    } else if a.1 != b.1 {
        u32::spec_cmp(a.1, b.1)
    } else {
        u32::spec_cmp(a.2, b.2)
    }
}

impl TableValue for IndexKey {
    open spec fn spec_encode(v: (u32, u32, u32)) -> Seq<u8> {
        spec_encode_triple(v)
    }

    open spec fn accepts(data: Seq<u8>) -> bool {
        data.len() == 12
    }

    open spec fn spec_cmp(a: (u32, u32, u32), b: (u32, u32, u32)) -> Ordering {
        spec_cmp_triple(a, b)
    }

    proof fn lemma_cmp_eq(a: (u32, u32, u32), b: (u32, u32, u32)) {
    }

    fn encode(&self) -> (r: Vec<u8>) {
        let mut data = u32_to_le_bytes(self.components[0]);
        let mut second = u32_to_le_bytes(self.components[1]);
        let mut third = u32_to_le_bytes(self.components[2]);
        data.append(&mut second);
        data.append(&mut third);
        data
    }

    fn decode(data: &[u8]) -> (r: IndexKey) {
        proof {
            lemma_auto_spec_u32_to_from_le_bytes();
        }
        let first = u32_from_le_bytes(slice_subrange(data, 0, 4));
        let second = u32_from_le_bytes(slice_subrange(data, 4, 8));
        let third = u32_from_le_bytes(slice_subrange(data, 8, 12));
        let r = IndexKey { components: [first, second, third] };
        proof {
            assert forall|v: (u32, u32, u32)| spec_encode_triple(v) == data@ implies r@ == v by {
                assert(spec_encode_triple(v).subrange(0, 4) =~= spec_u32_to_le_bytes(v.0));
                assert(spec_encode_triple(v).subrange(4, 8) =~= spec_u32_to_le_bytes(v.1));
                assert(spec_encode_triple(v).subrange(8, 12) =~= spec_u32_to_le_bytes(v.2));
            }
        }
        r
    }

    fn compare(&self, other: &IndexKey) -> (r: Ordering) {
        let mut offset: usize = 0;
        while offset < 3
            invariant
                offset <= 3,
                forall|i: int| 0 <= i < offset ==> self.components[i] == other.components[i],
            decreases 3 - offset,
        {
            let a = self.components[offset];
            let b = other.components[offset];
            if a < b {
                return Ordering::Less;
            }
            if a > b {
                return Ordering::Greater;
            }
            offset = offset + 1;
        }
        Ordering::Equal
    }

    fn duplicate(&self) -> (r: IndexKey) {
        IndexKey { components: self.components }
    }
}

} // verus!
