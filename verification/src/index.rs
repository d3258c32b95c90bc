//! The six permutations of a triple's fields. Each permutation names one
//! index partition and says which canonical field — subject, predicate or
//! object — occupies which position of that partition's keys, so that any
//! lookup pattern over one or two fixed fields is a range scan over exactly
//! one partition.

use vstd::prelude::*;

verus! {

/// One of the six canonical component orderings of a (subject, predicate,
/// object) triple, named after the two fields that lead the permuted key.
#[derive(Debug, Clone, Copy, PartialEq, Eq, PartialOrd, Ord, Structural)]
pub enum IndexKeyType {
    SubjectPredicate,
    SubjectObject,
    PredicateSubject,
    PredicateObject,
    ObjectSubject,
    ObjectPredicate,
}

/// The permutation a key type applies: for each output position, the
/// canonical position (0 subject, 1 predicate, 2 object) it copies from.
pub open spec fn spec_shuffle_order(t: IndexKeyType) -> Seq<int> {
    match t {
        IndexKeyType::SubjectPredicate => seq![0, 1, 2],
        IndexKeyType::SubjectObject => seq![0, 2, 1],
        IndexKeyType::PredicateSubject => seq![1, 0, 2],
        IndexKeyType::PredicateObject => seq![1, 2, 0],
        IndexKeyType::ObjectSubject => seq![2, 0, 1],
        IndexKeyType::ObjectPredicate => seq![2, 1, 0],
    }
}

/// A canonical identifier triple rearranged into this key type's order.
pub open spec fn spec_shuffle(t: IndexKeyType, k: (u32, u32, u32)) -> (u32, u32, u32) {
    match t {
        IndexKeyType::SubjectPredicate => (k.0, k.1, k.2),
        IndexKeyType::SubjectObject => (k.0, k.2, k.1),
        IndexKeyType::PredicateSubject => (k.1, k.0, k.2),
        IndexKeyType::PredicateObject => (k.1, k.2, k.0),
        IndexKeyType::ObjectSubject => (k.2, k.0, k.1),
        IndexKeyType::ObjectPredicate => (k.2, k.1, k.0),
    }
}

/// The stable small integer that names this key type's partition.
pub open spec fn spec_type_id(t: IndexKeyType) -> int {
    match t {
        IndexKeyType::SubjectPredicate => 0,
        IndexKeyType::SubjectObject => 1,
        IndexKeyType::PredicateSubject => 2,
        IndexKeyType::PredicateObject => 3,
        IndexKeyType::ObjectSubject => 4,
        IndexKeyType::ObjectPredicate => 5,
    }
}

/// The key type with the given stable id, inverse of [`spec_type_id`].
pub open spec fn type_with_id(i: int) -> IndexKeyType {
    if i == 0 {
        IndexKeyType::SubjectPredicate
    } else if i == 1 {
        IndexKeyType::SubjectObject
    } else if i == 2 {
        IndexKeyType::PredicateSubject
    } else if i == 3 {
        IndexKeyType::PredicateObject
    } else if i == 4 {
        IndexKeyType::ObjectSubject
    } else {
        IndexKeyType::ObjectPredicate
    }
}

/// The display form of a key type, used to name its partition.
pub open spec fn spec_type_name(t: IndexKeyType) -> Seq<char> {
    match t {
        IndexKeyType::SubjectPredicate => "SubjectPredicate"@,
        IndexKeyType::SubjectObject => "SubjectObject"@,
        IndexKeyType::PredicateSubject => "PredicateSubject"@,
        IndexKeyType::PredicateObject => "PredicateObject"@,
        IndexKeyType::ObjectSubject => "ObjectSubject"@,
        IndexKeyType::ObjectPredicate => "ObjectPredicate"@,
    }
}

impl IndexKeyType {
    /// The permutation table of this key type.
    fn shuffle_order(&self) -> (r: [usize; 3])
        ensures
            r@.map_values(|x: usize| x as int) =~= spec_shuffle_order(*self),
    {
        match *self {
            IndexKeyType::SubjectPredicate => [0, 1, 2],
            IndexKeyType::SubjectObject => [0, 2, 1],
            IndexKeyType::PredicateSubject => [1, 0, 2],
            IndexKeyType::PredicateObject => [1, 2, 0],
            IndexKeyType::ObjectSubject => [2, 0, 1],
            IndexKeyType::ObjectPredicate => [2, 1, 0],
        }
    }

    /// The stable small integer id naming this key type's partition.
    pub fn id(&self) -> (r: u8)
        ensures
            r == spec_type_id(*self),
    {
        match *self {
            IndexKeyType::SubjectPredicate => 0,
            IndexKeyType::SubjectObject => 1,
            IndexKeyType::PredicateSubject => 2,
            IndexKeyType::PredicateObject => 3,
            IndexKeyType::ObjectSubject => 4,
            IndexKeyType::ObjectPredicate => 5,
        }
    }

    /// The display form of this key type, used to name its partition.
    pub fn name(&self) -> (r: String)
        ensures
            r@ == spec_type_name(*self),
    {
        match *self {
            IndexKeyType::SubjectPredicate => "SubjectPredicate".to_owned(),
            IndexKeyType::SubjectObject => "SubjectObject".to_owned(),
            IndexKeyType::PredicateSubject => "PredicateSubject".to_owned(),
            IndexKeyType::PredicateObject => "PredicateObject".to_owned(),
            IndexKeyType::ObjectSubject => "ObjectSubject".to_owned(),
            IndexKeyType::ObjectPredicate => "ObjectPredicate".to_owned(),
        }
    }

    /// All six key types, in the fixed enumeration order of their ids.
    pub fn values() -> (r: [IndexKeyType; 6])
        ensures
            forall|i: int| 0 <= i < 6 ==> r@[i] == type_with_id(i),
    {
        [
            IndexKeyType::SubjectPredicate,
            IndexKeyType::SubjectObject,
            IndexKeyType::PredicateSubject,
            IndexKeyType::PredicateObject,
            IndexKeyType::ObjectSubject,
            IndexKeyType::ObjectPredicate,
        ]
    }

    /// Copy the canonical triple in `src` into `dest`, rearranged into this
    /// key type's order: output position `i` receives the canonical field
    /// that the permutation names there.
    pub fn shuffle_triple_into<T: Copy>(&self, src: &[T], dest: &mut [T])
        requires
            src@.len() == 3,
            old(dest)@.len() == 3,
        ensures
            final(dest)@.len() == 3,
            forall|i: int|
                0 <= i < 3 ==> final(dest)@[i] == src@[spec_shuffle_order(*self)[i]],
    {
        let shuffle_order = self.shuffle_order();

        let mut offset: usize = 0;
        while offset < 3
            invariant
                offset <= 3,
                src@.len() == 3,
                dest@.len() == 3,
                shuffle_order@.map_values(|x: usize| x as int) =~= spec_shuffle_order(*self),
                forall|i: int| 0 <= i < offset ==> dest@[i] == src@[spec_shuffle_order(*self)[i]],
            decreases 3 - offset,
        {
            let from = shuffle_order[offset];
            assert(0 <= spec_shuffle_order(*self)[offset as int] < 3);
            let value = src[from];
            dest[offset] = value;
            offset = offset + 1;
        }
    }
}

/// An ordered triple of components — string terms before resolution,
/// identifiers after — in canonical (subject, predicate, object) order.
pub struct IndexEntry<T> {
    pub components: Vec<T>,
}

impl<T: DeepView> View for IndexEntry<T> {
    type V = Seq<<T as DeepView>::V>;

    open spec fn view(&self) -> Seq<<T as DeepView>::V> {
        self.components.deep_view()
    }
}

impl<T> IndexEntry<T> {
    /// Create an entry from its three components in canonical order.
    pub fn from(subject: T, predicate: T, object: T) -> (r: IndexEntry<T>)
        ensures
            r.components@ =~= seq![subject, predicate, object],
    {
        let mut components = Vec::with_capacity(3);
        components.push(subject);
        components.push(predicate);
        components.push(object);
        IndexEntry { components }
    }

    /// The components of this entry, in canonical order.
    pub fn components(&self) -> (r: &[T])
        ensures
            r@ == self.components@,
    {
        self.components.as_slice()
    }

    /// Convert the first three components through a mapping function into a
    /// new entry.
    pub fn map<O, F: Fn(&T) -> O>(&self, mapper: F) -> (r: IndexEntry<O>)
        requires
            self.components@.len() >= 3,
            forall|i: int| 0 <= i < 3 ==> call_requires(mapper, (&self.components@[i],)),
        ensures
            r.components@.len() == 3,
            forall|i: int|
                0 <= i < 3 ==> call_ensures(mapper, (&self.components@[i],), #[trigger] r.components@[i]),
    {
        let mut components = Vec::with_capacity(3);

        let mut offset: usize = 0;
        while offset < 3
            invariant
                offset <= 3,
                self.components@.len() >= 3,
                components@.len() == offset,
                forall|i: int| 0 <= i < 3 ==> call_requires(mapper, (&self.components@[i],)),
                forall|i: int|
                    0 <= i < offset ==> call_ensures(
                        mapper,
                        (&self.components@[i],),
                        #[trigger] components@[i],
                    ),
            decreases 3 - offset,
        {
            let output = mapper(&self.components[offset]);
            components.push(output);
            offset = offset + 1;
        }

        IndexEntry { components }
    }
}

} // verus!
