//! The binary codec shared by every table: fixed-width little-endian
//! identifiers and raw UTF-8 terms, together with the decode-then-compare
//! ordering rule that the storage substrate must install per partition.

use core::cmp::Ordering;
use vstd::bytes::{lemma_auto_spec_u32_to_from_le_bytes, spec_u32_to_le_bytes, u32_from_le_bytes,
    u32_to_le_bytes};
use vstd::prelude::*;
use vstd::string::StrSliceExecFns;
use vstd::utf8::{decode_utf8, encode_utf8, encode_utf8_decode_utf8, encode_utf8_valid_utf8,
    valid_utf8};

verus! {

/// A value that can live in a table: it has an injective binary encoding and
/// a total order, both stated over the value's abstract view. The substrate
/// stores only the encoded bytes and sorts them with [`cmp_encoded`], so the
/// encoding and the order together are the whole on-disk contract.
pub trait TableValue: View + Sized {
    /// The bytes that encode a value whose abstract view is `v`.
    spec fn spec_encode(v: Self::V) -> Seq<u8>;

    /// The byte strings that `decode` accepts without panicking.
    spec fn accepts(data: Seq<u8>) -> bool;

    /// The order of two values, given by their abstract views.
    spec fn spec_cmp(a: Self::V, b: Self::V) -> Ordering;

    /// Two values compare as equal exactly when their views are equal.
    proof fn lemma_cmp_eq(a: Self::V, b: Self::V)
        ensures
            (Self::spec_cmp(a, b) == Ordering::Equal) <==> a == b,
    ;

    /// Encode this table value to a vector of bytes.
    fn encode(&self) -> (r: Vec<u8>)
        ensures
            r@ == Self::spec_encode(self@),
    ;

    /// Decode an input slice of bytes into a value. Decoding inverts
    /// encoding: if the input is the encoding of some value, that value
    /// comes back.
    fn decode(data: &[u8]) -> (r: Self)
        requires
            Self::accepts(data@),
        ensures
            forall|v: Self::V| Self::spec_encode(v) == data@ ==> r@ == v,
    ;

    /// Compare two values by their decoded meaning, not their raw bytes.
    fn compare(&self, other: &Self) -> (r: Ordering)
        ensures
            r == Self::spec_cmp(self@, other@),
    ;

    /// An owned copy of the value, with the same view.
    fn duplicate(&self) -> (r: Self)
        ensures
            r@ == self@,
    ;
}

impl TableValue for u32 {
    open spec fn spec_encode(v: u32) -> Seq<u8> {
        spec_u32_to_le_bytes(v)
    }

    open spec fn accepts(data: Seq<u8>) -> bool {
        data.len() == 4
    }

    open spec fn spec_cmp(a: u32, b: u32) -> Ordering {
        if a < b {
            Ordering::Less
        } else if a == b {
            Ordering::Equal
        } else {
            Ordering::Greater
        }
    }

    proof fn lemma_cmp_eq(a: u32, b: u32) {
    }

    fn encode(&self) -> (r: Vec<u8>) {
        u32_to_le_bytes(*self)
    }

    fn decode(data: &[u8]) -> (r: u32) {
        proof {
            lemma_auto_spec_u32_to_from_le_bytes();
        }
        u32_from_le_bytes(data)
    }

    fn compare(&self, other: &u32) -> (r: Ordering) {
        if *self < *other {
            Ordering::Less
        } else if *self == *other {
            Ordering::Equal
        } else {
            Ordering::Greater
        }
    }

    fn duplicate(&self) -> (r: u32) {
        *self
    }
}

/// Lexicographic order on byte strings: the first differing byte decides, a
/// proper prefix comes first.
pub open spec fn lex_cmp(a: Seq<u8>, b: Seq<u8>) -> Ordering
    decreases a.len(),
{
    if a.len() == 0 && b.len() == 0 {
        Ordering::Equal
    } else if a.len() == 0 {
        Ordering::Less
    } else if b.len() == 0 {
        Ordering::Greater
    } else if a[0] < b[0] {
        Ordering::Less
    } else if a[0] > b[0] {
        Ordering::Greater
    } else {
        lex_cmp(a.drop_first(), b.drop_first())
    }
}

/// Byte strings order as equal exactly when they are equal.
pub proof fn lemma_lex_cmp_eq(a: Seq<u8>, b: Seq<u8>)
    ensures
        (lex_cmp(a, b) == Ordering::Equal) <==> a == b,
    decreases a.len(),
{
    if a.len() == 0 && b.len() == 0 {
        assert(a =~= b);
    } else if a.len() != 0 && b.len() != 0 && a[0] == b[0] {
        lemma_lex_cmp_eq(a.drop_first(), b.drop_first());
        if a.drop_first() == b.drop_first() {
            assert(a =~= b) by {
                assert forall|i: int| 0 <= i < a.len() implies a[i] == b[i] by {
                    if i > 0 {
                        assert(a.drop_first()[i - 1] == b.drop_first()[i - 1]);
                    }
                }
            }
        } else {
            assert(a != b) by {
                if a == b {
                    assert(a.drop_first() == b.drop_first());
                }
            }
        }
    }
}

/// Compare two byte slices lexicographically.
fn lex_compare(a: &[u8], b: &[u8]) -> (r: Ordering)
    ensures
        r == lex_cmp(a@, b@),
{
    let a_len: usize = a.len();
    let b_len: usize = b.len();
    let mut i: usize = 0;
    proof {
        assert(a@.skip(0) =~= a@);
        assert(b@.skip(0) =~= b@);
    }
    loop
        invariant
            i <= a_len,
            i <= b_len,
            a_len == a@.len(),
            b_len == b@.len(),
            lex_cmp(a@, b@) == lex_cmp(a@.skip(i as int), b@.skip(i as int)),
        decreases a_len - i,
    {
        if i >= a_len || i >= b_len {
            if a_len == b_len {
                return Ordering::Equal;
            } else if a_len < b_len {
                return Ordering::Less;
            } else {
                return Ordering::Greater;
            }
        }
        let x = a[i];
        let y = b[i];
        if x < y {
            return Ordering::Less;
        } else if x > y {
            return Ordering::Greater;
        }
        proof {
            assert(a@.skip(i as int).drop_first() =~= a@.skip(i + 1));
            assert(b@.skip(i as int).drop_first() =~= b@.skip(i + 1));
            assert(a@.skip(i as int)[0] == a@[i as int]);
            assert(b@.skip(i as int)[0] == b@[i as int]);
        }
        i = i + 1;
    }
}

/// Relies on `String::from_utf8_lossy`: valid UTF-8 input decodes exactly to
/// the string it encodes; invalid sequences are substituted, never an error.
#[verifier::external_body]
fn decode_term_bytes(data: &[u8]) -> (r: String)
    ensures
        valid_utf8(data@) ==> r@ == decode_utf8(data@),
{
    String::from_utf8_lossy(data).into_owned()
}

impl TableValue for String {
    open spec fn spec_encode(v: Seq<char>) -> Seq<u8> {
        encode_utf8(v)
    }

    open spec fn accepts(data: Seq<u8>) -> bool {
        true
    }

    open spec fn spec_cmp(a: Seq<char>, b: Seq<char>) -> Ordering {
        lex_cmp(encode_utf8(a), encode_utf8(b))
    }

    proof fn lemma_cmp_eq(a: Seq<char>, b: Seq<char>) {
        lemma_lex_cmp_eq(encode_utf8(a), encode_utf8(b));
        if encode_utf8(a) == encode_utf8(b) {
            broadcast use encode_utf8_decode_utf8;

            assert(decode_utf8(encode_utf8(a)) == decode_utf8(encode_utf8(b)));
        }
    }

    fn encode(&self) -> (r: Vec<u8>) {
        self.as_str().as_bytes_vec()
    }

    fn decode(data: &[u8]) -> (r: String) {
        let r = decode_term_bytes(data);
        proof {
            broadcast use encode_utf8_valid_utf8, encode_utf8_decode_utf8;

        }
        r
    }

    fn compare(&self, other: &String) -> (r: Ordering) {
        let a = self.as_str().as_bytes_vec();
        let b = other.as_str().as_bytes_vec();
        lex_compare(a.as_slice(), b.as_slice())
    }

    fn duplicate(&self) -> (r: String) {
        self.clone()
    }
}

/// The ordering rule a partition installs into the substrate: decode both
/// keys, then compare the decoded values. Raw byte order of little-endian
/// identifiers would not match numeric order, so the substrate must sort by
/// this rule instead.
pub fn cmp_encoded<T: TableValue>(a: &[u8], b: &[u8]) -> (r: Ordering)
    requires
        T::accepts(a@),
        T::accepts(b@),
    ensures
        forall|x: T::V, y: T::V|
            T::spec_encode(x) == a@ && T::spec_encode(y) == b@ ==> r == T::spec_cmp(x, y),
{
    let decoded_a = T::decode(a);
    let decoded_b = T::decode(b);
    decoded_a.compare(&decoded_b)
}

} // verus!
