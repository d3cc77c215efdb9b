//! The primary maps module for `x_map`: the insertion-order-preserving
//! indexed map and the raw-bytes-equality capability that its byte-wise
//! lookup relies on.

use crate::error::{CIndexMapError, MapErrorKind};
use crate::util::mem_cmp;
use vstd::prelude::*;
use vstd::std_specs::cmp::PartialEqSpec;

verus! {

/// The raw-bytes-equality capability: a key type opts in by exposing a
/// fixed-width raw byte representation of its values.
///
/// Only fixed-layout, non-indirect types should opt in. For a type that holds
/// indirections (a growable string, a heap buffer), two logically equal
/// values may have different underlying byte patterns, so a byte-wise lookup
/// over such a type silently produces wrong answers; that caveat is a caller
/// contract, not something the map repairs.
pub trait RawBytes: Sized {
    /// The width, in bytes, of every value's representation.
    spec fn byte_width() -> nat;

    /// The raw byte representation of this value.
    spec fn raw_bytes_spec(&self) -> Seq<u8>;

    /// Returns the raw byte representation of this value.
    fn raw_bytes(&self) -> (r: Vec<u8>)
        ensures
            r@ == self.raw_bytes_spec(),
            r@.len() == Self::byte_width(),
    ;
}

impl RawBytes for u8 {
    open spec fn byte_width() -> nat {
        1
    }

    open spec fn raw_bytes_spec(&self) -> Seq<u8> {
        seq![*self]
    }

    fn raw_bytes(&self) -> (r: Vec<u8>) {
        let mut bytes: Vec<u8> = Vec::new();
        bytes.push(*self);
        proof {
            assert(bytes@ =~= seq![*self]);
        }
        bytes
    }
}

impl RawBytes for u32 {
    open spec fn byte_width() -> nat {
        4
    }

    open spec fn raw_bytes_spec(&self) -> Seq<u8> {
        vstd::bytes::spec_u32_to_le_bytes(*self)
    }

    fn raw_bytes(&self) -> (r: Vec<u8>) {
        vstd::bytes::u32_to_le_bytes(*self)
    }
}

impl RawBytes for u64 {
    open spec fn byte_width() -> nat {
        8
    }

    open spec fn raw_bytes_spec(&self) -> Seq<u8> {
        vstd::bytes::spec_u64_to_le_bytes(*self)
    }

    fn raw_bytes(&self) -> (r: Vec<u8>) {
        vstd::bytes::u64_to_le_bytes(*self)
    }
}

/// The value paired with the first key of `s` that equals `key` under the key
/// type's logical equality, or `None` when no key matches.
pub open spec fn first_value_by_eq<K: PartialEq, V>(s: Seq<(K, V)>, key: K) -> Option<V>
    decreases s.len(),
{
    if s.len() == 0 {
        None
    } else if s.first().0.eq_spec(&key) {
        Some(s.first().1)
    } else {
        first_value_by_eq(s.drop_first(), key)
    }
}

/// The value paired with the first key of `s` whose raw byte representation
/// equals `key`'s, or `None` when no key matches byte-for-byte.
pub open spec fn first_value_by_bytes<K: RawBytes, V>(s: Seq<(K, V)>, key: K) -> Option<V>
    decreases s.len(),
{
    if s.len() == 0 {
        None
    } else if s.first().0.raw_bytes_spec() == key.raw_bytes_spec() {
        Some(s.first().1)
    } else {
        first_value_by_bytes(s.drop_first(), key)
    }
}

/// An insertion-order-preserving associative container.
///
/// The map owns two parallel growable buffers, one for keys and one for
/// values; the entry at position `i` of the key buffer always pairs with the
/// entry at position `i` of the value buffer. Entries are appended in
/// insertion order, removal compacts the surviving entries without
/// reordering them, and both buffers grow together by a constant increment
/// of two slots whenever an insert finds no free slot.
///
/// Duplicate keys are permitted: a second insert of the same key simply
/// creates a second entry, and key-based lookups return the first-inserted
/// match.
#[derive(Debug)]
pub struct CIndexMap<K, V> {
    /// Buffer of keys; `keys[i]` pairs with `values[i]`.
    keys: Vec<K>,

    /// Buffer of values; `values[i]` pairs with `keys[i]`.
    values: Vec<V>,

    /// The number of slots accounted to each buffer under the map's growth
    /// policy. The buffers' underlying allocation is delegated to `Vec`; this
    /// field tracks the capacity that the growth policy has granted so far.
    cap: usize,
}

impl<K, V> View for CIndexMap<K, V> {
    type V = Seq<(K, V)>;

    /// The map viewed as its sequence of key/value entries, in insertion
    /// order.
    closed spec fn view(&self) -> Seq<(K, V)> {
        Seq::new(self.keys@.len(), |i: int| (self.keys@[i], self.values@[i]))
    }
}

impl<K, V> CIndexMap<K, V> {
    /// The internal invariant: the two buffers always hold the same number of
    /// entries, the entries fit within the granted capacity, at least one
    /// slot is granted, and neither element type is zero-size (a zero-size
    /// element would make capacity arithmetic meaningless).
    #[verifier::type_invariant]
    closed spec fn inv(self) -> bool {
        &&& self.keys@.len() == self.values@.len()
        &&& self.keys@.len() <= self.cap
        &&& 1 <= self.cap
        &&& vstd::layout::size_of::<K>() != 0
        &&& vstd::layout::size_of::<V>() != 0
    }

    /// The number of slots currently accounted to each buffer.
    pub closed spec fn capacity(&self) -> nat {
        self.cap as nat
    }

    /// Every map the library hands out keeps its entries within capacity and
    /// has at least one slot granted.
    pub open spec fn wf(self) -> bool {
        &&& self@.len() <= self.capacity()
        &&& 1 <= self.capacity()
    }

    /// The entry at position `i`: present within the valid range, absent
    /// outside it.
    pub open spec fn entry_at(self, i: int) -> Option<(K, V)> {
        if 0 <= i < self@.len() {
            Some(self@[i])
        } else {
            None
        }
    }

    /// Constructs a new, empty `CIndexMap` with capacity for exactly one
    /// entry.
    ///
    /// Constructing a map over a zero-size key or value type is a caller
    /// programming error, ruled out by the precondition: capacity and offset
    /// arithmetic has no valid meaning for zero-size elements.
    pub fn new() -> (m: CIndexMap<K, V>)
        requires
            vstd::layout::size_of::<K>() != 0,
            vstd::layout::size_of::<V>() != 0,
        ensures
            m@ == Seq::<(K, V)>::empty(),
            m.capacity() == 1,
            m.wf(),
    {
        let m = CIndexMap { keys: Vec::new(), values: Vec::new(), cap: 1 };
        proof {
            assert(m@ =~= Seq::<(K, V)>::empty());
        }
        m
    }

    /// Inserts a new key/value pair into the map, appending it after the last
    /// valid entry.
    ///
    /// When no free slot is left (the valid entries already fill the granted
    /// capacity), the map first grows both buffers by two slots; growth fails
    /// with an `AllocationError`, and the map keeps its prior state, when the
    /// grown capacity cannot be represented. Once a slot is available the
    /// insert always succeeds, and duplicate keys simply create a second
    /// entry.
    pub fn insert(&mut self, key: K, value: V) -> (r: Result<(), CIndexMapError>)
        ensures
            old(self)@.len() < old(self).capacity() ==> {
                &&& r is Ok
                &&& final(self)@ == old(self)@.push((key, value))
                &&& final(self).capacity() == old(self).capacity()
            },
            old(self)@.len() >= old(self).capacity() ==> {
                if old(self).capacity() + 2 <= usize::MAX {
                    &&& r is Ok
                    &&& final(self)@ == old(self)@.push((key, value))
                    &&& final(self).capacity() == old(self).capacity() + 2
                } else {
                    &&& r matches Err(e) && e.kind() == MapErrorKind::AllocationError
                        && e.spec_message() == "Error when attempting to allocate map memory."@
                    &&& *final(self) == *old(self)
                }
            },
            final(self).wf(),
    {
        proof {
            use_type_invariant(&*self);
        }
        let mut tmp = CIndexMap { keys: Vec::new(), values: Vec::new(), cap: 1 };
        core::mem::swap(self, &mut tmp);
        let CIndexMap { mut keys, mut values, cap } = tmp;

        let mut new_cap = cap;
        if keys.len() >= cap {
            match cap.checked_add(2) {
                Some(grown) => {
                    new_cap = grown;
                }
                None => {
                    *self = CIndexMap { keys, values, cap };
                    return Err(CIndexMapError::new(
                        MapErrorKind::AllocationError,
                        "Error when attempting to allocate map memory.",
                    ));
                }
            }
        }

        keys.push(key);
        values.push(value);
        *self = CIndexMap { keys, values, cap: new_cap };
        proof {
            assert(self@ =~= old(self)@.push((key, value)));
        }
        Ok(())
    }

    /// Removes the entry at the specified position.
    ///
    /// Fails with an `AccessError`, leaving the map unchanged, when `index`
    /// lies beyond the last valid entry (which covers the empty map).
    /// Otherwise every entry past `index` shifts left by one position in both
    /// buffers, preserving the relative order of the survivors; the vacated
    /// tail slot becomes free again.
    pub fn remove(&mut self, index: usize) -> (r: Result<(), CIndexMapError>)
        ensures
            index < old(self)@.len() ==> {
                &&& r is Ok
                &&& final(self)@ == old(self)@.remove(index as int)
                &&& final(self).capacity() == old(self).capacity()
            },
            index >= old(self)@.len() ==> {
                &&& r matches Err(e) && e.kind() == MapErrorKind::AccessError
                    && e.spec_message()
                    == "Attempted to access a map index that surpasses the bounds of the current map."@
                &&& *final(self) == *old(self)
            },
            final(self).wf(),
    {
        proof {
            use_type_invariant(&*self);
        }
        if index >= self.keys.len() {
            return Err(CIndexMapError::new(
                MapErrorKind::AccessError,
                "Attempted to access a map index that surpasses the bounds of the current map.",
            ));
        }

        let mut tmp = CIndexMap { keys: Vec::new(), values: Vec::new(), cap: 1 };
        core::mem::swap(self, &mut tmp);
        let CIndexMap { mut keys, mut values, cap } = tmp;

        keys.remove(index);
        values.remove(index);
        *self = CIndexMap { keys, values, cap };
        proof {
            assert(self@ =~= old(self)@.remove(index as int));
        }
        Ok(())
    }

    /// Returns a view of the entry at the specified position: the borrowed
    /// key and the borrowed value stored there.
    ///
    /// A position beyond the last valid entry is an expected, recoverable
    /// case and yields absence, not an error. The returned borrows are only
    /// valid until the next mutating call: both buffers may relocate on
    /// growth, and removal shifts positions.
    pub fn index(&self, index: usize) -> (r: Option<(&K, &V)>)
        ensures
            match r {
                Some(p) => self.entry_at(index as int) == Some((*p.0, *p.1)),
                None => self.entry_at(index as int) is None,
            },
    {
        proof {
            use_type_invariant(&*self);
        }
        if index >= self.keys.len() {
            None
        } else {
            Some((&self.keys[index], &self.values[index]))
        }
    }
}

impl<K: RawBytes, V> CIndexMap<K, V> {
    /// Gets the value associated with the specified key, comparing raw byte
    /// representations instead of logical equality.
    ///
    /// This lookup is for key types that cannot, for some reason, offer
    /// logical equality. It scans the valid entries in insertion order and
    /// returns the value at the first position whose stored key shows zero
    /// byte-difference from `key`. It is only meaningful for key types whose
    /// equality is fully determined by their raw in-memory bytes: see
    /// [`RawBytes`] for the caller contract.
    pub fn get_no_peq(&self, key: K) -> (r: Option<&V>)
        ensures
            match r {
                Some(v) => first_value_by_bytes(self@, key) == Some(*v),
                None => first_value_by_bytes(self@, key) is None,
            },
    {
        proof {
            use_type_invariant(&*self);
            assert(self@.skip(0) =~= self@);
        }
        let key_bytes = key.raw_bytes();
        let n: usize = self.keys.len();
        let mut i: usize = 0;
        while i < n
            invariant
                i <= n,
                n == self@.len(),
                key_bytes@ == key.raw_bytes_spec(),
                key_bytes@.len() == K::byte_width(),
                first_value_by_bytes(self@, key) == first_value_by_bytes(
                    self@.skip(i as int),
                    key,
                ),
            decreases n - i,
        {
            proof {
                use_type_invariant(&*self);
                assert(self@.skip(i as int).first() == self@[i as int]);
            }
            let stored_bytes = self.keys[i].raw_bytes();
            let cmp = mem_cmp(key_bytes.as_slice(), stored_bytes.as_slice(), key_bytes.len());
            match cmp {
                None => {
                    proof {
                        assert(self@[i as int].0.raw_bytes_spec() =~= key.raw_bytes_spec());
                    }
                    return Some(&self.values[i]);
                }
                Some(_) => {
                    proof {
                        assert(self@[i as int].0.raw_bytes_spec() != key.raw_bytes_spec());
                        assert(self@.skip(i as int).drop_first() =~= self@.skip(i as int + 1));
                    }
                }
            }

            i += 1;
        }

        None
    }
}

impl<K: PartialEq, V> CIndexMap<K, V> {
    /// Gets the value associated with the specified key.
    ///
    /// The valid entries are scanned in insertion order and the value paired
    /// with the first key for which logical equality holds is returned; when
    /// no stored key matches, the lookup yields absence. With duplicate keys
    /// the first-inserted match wins.
    pub fn get(&self, key: K) -> (r: Option<&V>)
        ensures
            K::obeys_eq_spec() ==> match r {
                Some(v) => first_value_by_eq(self@, key) == Some(*v),
                None => first_value_by_eq(self@, key) is None,
            },
    {
        proof {
            use_type_invariant(&*self);
            assert(self@.skip(0) =~= self@);
        }
        let n: usize = self.keys.len();
        let mut i: usize = 0;
        while i < n
            invariant
                i <= n,
                n == self@.len(),
                K::obeys_eq_spec() ==> first_value_by_eq(self@, key) == first_value_by_eq(
                    self@.skip(i as int),
                    key,
                ),
            decreases n - i,
        {
            proof {
                use_type_invariant(&*self);
                assert(self@.skip(i as int).first() == self@[i as int]);
            }
            if self.keys[i] == key {
                return Some(&self.values[i]);
            }
            proof {
                assert(self@.skip(i as int).drop_first() =~= self@.skip(i as int + 1));
            }
            i += 1;
        }

        None
    }

    /// Checks whether the map contains the provided key.
    ///
    /// The valid entries are scanned in insertion order under the key type's
    /// logical equality, as in `get`.
    pub fn contains_key(&self, key: K) -> (r: bool)
        ensures
            K::obeys_eq_spec() ==> (r <==> exists|i: int|
                0 <= i < self@.len() && (#[trigger] self@[i]).0.eq_spec(&key)),
    {
        proof {
            use_type_invariant(&*self);
        }
        let n: usize = self.keys.len();
        let mut i: usize = 0;
        while i < n
            invariant
                i <= n,
                n == self@.len(),
                K::obeys_eq_spec() ==> forall|j: int|
                    0 <= j < i ==> !(#[trigger] self@[j]).0.eq_spec(&key),
            decreases n - i,
        {
            proof {
                use_type_invariant(&*self);
            }
            if self.keys[i] == key {
                proof {
                    if K::obeys_eq_spec() {
                        assert((self@[i as int]).0.eq_spec(&key));
                    }
                }
                return true;
            }
            i += 1;
        }

        false
    }
}

impl<K, V: PartialEq> CIndexMap<K, V> {
    /// Checks whether the map contains the provided value.
    ///
    /// The valid entries are scanned in insertion order under the value
    /// type's logical equality.
    pub fn contains_value(&self, value: V) -> (r: bool)
        ensures
            V::obeys_eq_spec() ==> (r <==> exists|i: int|
                0 <= i < self@.len() && (#[trigger] self@[i]).1.eq_spec(&value)),
    {
        proof {
            use_type_invariant(&*self);
        }
        let n: usize = self.values.len();
        let mut i: usize = 0;
        while i < n
            invariant
                i <= n,
                n == self@.len(),
                V::obeys_eq_spec() ==> forall|j: int|
                    0 <= j < i ==> !(#[trigger] self@[j]).1.eq_spec(&value),
            decreases n - i,
        {
            proof {
                use_type_invariant(&*self);
            }
            if self.values[i] == value {
                proof {
                    if V::obeys_eq_spec() {
                        assert((self@[i as int]).1.eq_spec(&value));
                    }
                }
                return true;
            }
            i += 1;
        }

        false
    }
}

/// Law: position lookups see insertion order. When a map's view is the
/// sequence of pairs inserted so far — each successful `insert` appends
/// exactly one pair to the view, by its postcondition — the entry at position
/// `i` is the `i`-th inserted pair.
pub proof fn lemma_entries_in_insertion_order<K, V>(m: CIndexMap<K, V>, pairs: Seq<(K, V)>, i: int)
    requires
        m@ == pairs,
        0 <= i < pairs.len(),
    ensures
        m.entry_at(i) == Some(pairs[i]),
{
}

/// Law: removal shifts the survivors left without reordering them. After
/// removing position `i`, every position below `i` is unchanged, every
/// position at or above `i` holds the entry that stood one past it before the
/// removal, and the number of entries drops by exactly one.
pub proof fn lemma_remove_shifts_survivors<K, V>(pre: Seq<(K, V)>, i: int)
    requires
        0 <= i < pre.len(),
    ensures
        pre.remove(i).len() == pre.len() - 1,
        forall|j: int| 0 <= j < i ==> pre.remove(i)[j] == pre[j],
        forall|j: int| i <= j < pre.len() - 1 ==> pre.remove(i)[j] == pre[j + 1],
{
}

/// Law: an equality-based lookup returns the value of the first-inserted
/// matching key. When position `i` holds a matching key and no position
/// before it does, the lookup yields the value stored at `i`.
pub proof fn lemma_first_value_by_eq_first_match<K: PartialEq, V>(s: Seq<(K, V)>, key: K, i: int)
    requires
        0 <= i < s.len(),
        s[i].0.eq_spec(&key),
        forall|j: int| 0 <= j < i ==> !(#[trigger] s[j]).0.eq_spec(&key),
    ensures
        first_value_by_eq(s, key) == Some(s[i].1),
    decreases i,
{
    if i == 0 {
        assert(s.first() == s[0]);
    } else {
        assert(!s[0].0.eq_spec(&key));
        assert forall|j: int| 0 <= j < i - 1 implies !(#[trigger] s.drop_first()[j]).0.eq_spec(
            &key,
        ) by {
            assert(s.drop_first()[j] == s[j + 1]);
        }
        assert(s.drop_first()[i - 1] == s[i]);
        lemma_first_value_by_eq_first_match(s.drop_first(), key, i - 1);
    }
}

/// Law: an equality-based lookup reports absence exactly when no stored key
/// matches.
pub proof fn lemma_first_value_by_eq_none<K: PartialEq, V>(s: Seq<(K, V)>, key: K)
    requires
        forall|j: int| 0 <= j < s.len() ==> !(#[trigger] s[j]).0.eq_spec(&key),
    ensures
        first_value_by_eq(s, key) is None,
    decreases s.len(),
{
    if s.len() > 0 {
        assert(!s[0].0.eq_spec(&key));
        assert forall|j: int| 0 <= j < s.drop_first().len() implies !(#[trigger] s.drop_first()[j]).0.eq_spec(
            &key,
        ) by {
            assert(s.drop_first()[j] == s[j + 1]);
        }
        lemma_first_value_by_eq_none(s.drop_first(), key);
    }
}

/// Law: the byte-wise lookup and the equality-based lookup agree for every
/// key type whose raw byte representation fully determines its logical
/// equality — that is, for fixed-layout, non-indirect key types.
pub proof fn lemma_byte_lookup_agrees_with_eq_lookup<K: PartialEq + RawBytes, V>(
    s: Seq<(K, V)>,
    key: K,
)
    requires
        forall|a: K, b: K| #[trigger] a.eq_spec(&b) <==> a.raw_bytes_spec() == b.raw_bytes_spec(),
    ensures
        first_value_by_bytes(s, key) == first_value_by_eq(s, key),
    decreases s.len(),
{
    if s.len() > 0 {
        assert(s.first().0.eq_spec(&key) <==> s.first().0.raw_bytes_spec()
            == key.raw_bytes_spec());
        lemma_byte_lookup_agrees_with_eq_lookup(s.drop_first(), key);
    }
}

/// The raw little-endian bytes of a `u32` fully determine its equality, so
/// `u32` keys meet the hypothesis under which the byte-wise and the
/// equality-based lookups agree.
pub proof fn lemma_u32_bytes_determine_eq(a: u32, b: u32)
    ensures
        a.eq_spec(&b) <==> a.raw_bytes_spec() == b.raw_bytes_spec(),
{
    vstd::bytes::lemma_auto_spec_u32_to_from_le_bytes();
    assert(a.eq_spec(&b) == (a == b));
    assert(vstd::bytes::spec_u32_to_le_bytes(a).len() == 4);
    assert(vstd::bytes::spec_u32_to_le_bytes(b).len() == 4);
    if a.raw_bytes_spec() == b.raw_bytes_spec() {
        assert(vstd::bytes::spec_u32_from_le_bytes(vstd::bytes::spec_u32_to_le_bytes(a))
            == vstd::bytes::spec_u32_from_le_bytes(vstd::bytes::spec_u32_to_le_bytes(b)));
        assert(a == b);
    }
}

/// Law: over `u32` keys, the byte-wise lookup agrees with the equality-based
/// lookup on every map view and every key.
pub proof fn lemma_byte_lookup_agrees_on_u32_keys<V>(s: Seq<(u32, V)>, key: u32)
    ensures
        first_value_by_bytes(s, key) == first_value_by_eq(s, key),
{
    assert forall|a: u32, b: u32| #[trigger] a.eq_spec(&b) <==> a.raw_bytes_spec()
        == b.raw_bytes_spec() by {
        lemma_u32_bytes_determine_eq(a, b);
    }
    lemma_byte_lookup_agrees_with_eq_lookup(s, key);
}

} // verus!
