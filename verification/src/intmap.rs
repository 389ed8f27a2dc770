//! Growable dense maps keyed by index-convertible values, a bit-packed
//! boolean specialization, and an insertion-ordered set built on top of it.

use core::marker::PhantomData;
use vstd::prelude::*;

verus! {

/// A key type with a bijective mapping onto a dense range of indices.
///
/// Distinct keys never collide on the same index, every index of a key is a
/// valid `usize`, and the set of valid indices is downward closed, so a map
/// sized for one key covers every smaller index as well.
pub trait AsIndex: Copy + Sized {
    /// The dense position this key stands for.
    spec fn key_index(self) -> int;

    /// Which indices denote a key of this type.
    spec fn index_ok(i: int) -> bool;

    /// Every key's index is a valid `usize` and a valid index.
    proof fn lemma_key_index_ok(a: Self)
        ensures
            0 <= a.key_index() <= usize::MAX as int,
            Self::index_ok(a.key_index()),
    ;

    /// Valid indices are downward closed.
    proof fn lemma_index_ok_down(i: int, j: int)
        requires
            Self::index_ok(j),
            0 <= i <= j,
        ensures
            Self::index_ok(i),
    ;

    /// The mapping is injective: equal indices come from equal keys.
    proof fn lemma_key_index_injective(a: Self, b: Self)
        requires
            a.key_index() == b.key_index(),
        ensures
            a == b,
    ;

    fn as_index(self) -> (r: usize)
        ensures
            r as int == self.key_index(),
    ;

    fn from_index(i: usize) -> (r: Self)
        requires
            Self::index_ok(i as int),
        ensures
            r.key_index() == i as int,
    ;
}

/// Relies on `Vec::shrink_to_fit`: it only trims spare capacity, the
/// elements stay as they are.
#[verifier::external_body]
fn vec_shrink_to_fit<T>(v: &mut Vec<T>)
    ensures
        final(v)@ == old(v)@,
{
    v.shrink_to_fit()
}

/// A growable total map from keys to values, backed by a dense array
/// positioned by key index.
///
/// The view is the backing sequence: its length is one more than the largest
/// index ever reserved, and `spec_has` holds exactly for keys whose index
/// lies below that length.
pub struct IntMap<K: AsIndex, V> {
    map: Vec<V>,
    _marker: PhantomData<K>,
}

impl<K: AsIndex, V> View for IntMap<K, V> {
    type V = Seq<V>;

    closed spec fn view(&self) -> Seq<V> {
        self.map@
    }
}

impl<K: AsIndex, V> IntMap<K, V> {
    /// Every slot position of the backing array is a valid key index.
    ///
    /// Holds of every map built through this interface: constructors
    /// establish it and every method preserves it.
    pub closed spec fn wf(self) -> bool {
        forall|i: int| 0 <= i < self.map@.len() ==> K::index_ok(i)
    }

    /// Whether the map is sized to cover `k`.
    pub open spec fn spec_has(self, k: K) -> bool {
        k.key_index() < self@.len()
    }

    pub fn new() -> (r: Self)
        ensures
            r@ == Seq::<V>::empty(),
            r.wf(),
    {
        IntMap { map: Vec::new(), _marker: PhantomData }
    }

    /// The map's length: one more than the largest index ever reserved.
    pub fn len(&self) -> (r: usize)
        ensures
            r == self@.len(),
    {
        self.map.len()
    }

    /// True iff the map is sized to cover `k`.
    pub fn has(&self, k: K) -> (r: bool)
        ensures
            r == self.spec_has(k),
    {
        k.as_index() < self.map.len()
    }

    /// Grows the map so that `has(key)` holds, filling every newly created
    /// slot with a clone of `pad`; a no-op if the map already covers `key`.
    pub fn reserve(&mut self, key: K, pad: V) where V: Clone
        requires
            key.key_index() < usize::MAX as int,
        ensures
            final(self)@.len() == if old(self)@.len() > key.key_index() {
                old(self)@.len() as int
            } else {
                key.key_index() + 1
            },
            forall|i: int| 0 <= i < old(self)@.len() ==> final(self)@[i] == old(self)@[i],
            forall|i: int|
                old(self)@.len() <= i < final(self)@.len() ==> cloned(
                    pad,
                    #[trigger] final(self)@[i],
                ),
            final(self).spec_has(key),
            old(self).wf() ==> final(self).wf(),
    {
        let index = key.as_index();
        if index >= self.map.len() {
            proof {
                K::lemma_key_index_ok(key);
                assert forall|i: int| 0 <= i < key.key_index() + 1 implies K::index_ok(i) by {
                    K::lemma_index_ok_down(i, key.key_index());
                }
            }
            self.map.resize(index + 1, pad);
        }
    }

    /// Like `reserve`, but fills new slots with the value type's default.
    pub fn reserve_default(&mut self, key: K) where V: Default
        requires
            key.key_index() < usize::MAX as int,
        ensures
            final(self)@.len() == if old(self)@.len() > key.key_index() {
                old(self)@.len() as int
            } else {
                key.key_index() + 1
            },
            forall|i: int| 0 <= i < old(self)@.len() ==> final(self)@[i] == old(self)@[i],
            forall|i: int|
                old(self)@.len() <= i < final(self)@.len() ==> call_ensures(
                    V::default,
                    (),
                    #[trigger] final(self)@[i],
                ),
            final(self).spec_has(key),
            old(self).wf() ==> final(self).wf(),
    {
        let index = key.as_index();
        proof {
            K::lemma_key_index_ok(key);
        }
        if index >= self.map.len() {
            while self.map.len() < index + 1
                invariant
                    index as int == key.key_index(),
                    index < usize::MAX,
                    old(self)@.len() <= self.map@.len() <= index + 1,
                    forall|i: int| 0 <= i < old(self)@.len() ==> self.map@[i] == old(self)@[i],
                    forall|i: int|
                        old(self)@.len() <= i < self.map@.len() ==> call_ensures(
                            V::default,
                            (),
                            #[trigger] self.map@[i],
                        ),
                    forall|i: int| old(self)@.len() <= i < self.map@.len() ==> K::index_ok(i),
                decreases index + 1 - self.map.len(),
            {
                proof {
                    K::lemma_key_index_ok(key);
                    K::lemma_index_ok_down(self.map@.len() as int, key.key_index());
                }
                self.map.push(V::default());
            }
        }
    }

    /// Reserves `key` (padding with clones of `pad`), then overwrites the
    /// slot of `key` with `val`.
    pub fn insert(&mut self, key: K, val: V, pad: V) where V: Clone
        requires
            key.key_index() < usize::MAX as int,
        ensures
            final(self)@.len() == if old(self)@.len() > key.key_index() {
                old(self)@.len() as int
            } else {
                key.key_index() + 1
            },
            final(self)@[key.key_index()] == val,
            forall|i: int|
                0 <= i < old(self)@.len() && i != key.key_index() ==> final(self)@[i] == old(
                    self,
                )@[i],
            forall|i: int|
                old(self)@.len() <= i < final(self)@.len() && i != key.key_index() ==> cloned(
                    pad,
                    #[trigger] final(self)@[i],
                ),
            final(self).spec_has(key),
            old(self).wf() ==> final(self).wf(),
    {
        self.reserve(key, pad);
        let index = key.as_index();
        self.map[index] = val;
    }

    /// Reserves `key` (padding with defaults), then overwrites its slot.
    pub fn insert_default(&mut self, key: K, val: V) where V: Default
        requires
            key.key_index() < usize::MAX as int,
        ensures
            final(self)@.len() == if old(self)@.len() > key.key_index() {
                old(self)@.len() as int
            } else {
                key.key_index() + 1
            },
            final(self)@[key.key_index()] == val,
            forall|i: int|
                0 <= i < old(self)@.len() && i != key.key_index() ==> final(self)@[i] == old(
                    self,
                )@[i],
            forall|i: int|
                old(self)@.len() <= i < final(self)@.len() && i != key.key_index() ==> call_ensures(
                    V::default,
                    (),
                    #[trigger] final(self)@[i],
                ),
            final(self).spec_has(key),
            old(self).wf() ==> final(self).wf(),
    {
        self.reserve_default(key);
        let index = key.as_index();
        self.map[index] = val;
    }

    /// Reads the slot of `k`; the caller must have reserved `k` first.
    pub fn get(&self, k: K) -> (r: &V)
        requires
            self.spec_has(k),
        ensures
            *r == self@[k.key_index()],
    {
        let index = k.as_index();
        &self.map[index]
    }

    /// Overwrites the slot of `k`; the caller must have reserved `k` first.
    pub fn set(&mut self, k: K, v: V)
        requires
            old(self).spec_has(k),
        ensures
            final(self)@ == old(self)@.update(k.key_index(), v),
            old(self).wf() ==> final(self).wf(),
    {
        let index = k.as_index();
        self.map[index] = v;
    }

    /// Logically empties the map, keeping its allocated storage.
    ///
    /// Afterward no key is covered until it is reserved again.
    pub fn clear(&mut self)
        ensures
            final(self)@ == Seq::<V>::empty(),
            forall|k: K| !final(self).spec_has(k),
            final(self).wf(),
    {
        self.map.clear();
        proof {
            assert forall|k: K| !self.spec_has(k) by {
                K::lemma_key_index_ok(k);
            }
        }
    }

    /// Empties the map and releases its storage, leaving it with the view of
    /// a freshly constructed map.
    pub fn free(&mut self)
        ensures
            final(self)@ == Seq::<V>::empty(),
            forall|k: K| !final(self).spec_has(k),
            final(self).wf(),
    {
        self.map.clear();
        vec_shrink_to_fit(&mut self.map);
        proof {
            assert forall|k: K| !self.spec_has(k) by {
                K::lemma_key_index_ok(k);
            }
        }
    }

    /// Enumerates the map as `(key, value)` pairs in ascending index order,
    /// re-reading the current state on every call.
    pub fn iter(&self) -> (r: Vec<(K, V)>) where V: Copy
        requires
            self.wf(),
        ensures
            r@.len() == self@.len(),
            forall|i: int|
                0 <= i < r@.len() ==> (#[trigger] r@[i]).1 == self@[i] && r@[i].0.key_index() == i,
    {
        let mut out: Vec<(K, V)> = Vec::new();
        let mut i: usize = 0;
        while i < self.map.len()
            invariant
                self.wf(),
                0 <= i <= self.map@.len(),
                out@.len() == i,
                forall|j: int|
                    0 <= j < out@.len() ==> (#[trigger] out@[j]).1 == self.map@[j]
                        && out@[j].0.key_index() == j,
            decreases self.map@.len() - i,
        {
            let k = K::from_index(i);
            out.push((k, self.map[i]));
            i = i + 1;
        }
        out
    }
}

impl<K: AsIndex, V> Default for IntMap<K, V> {
    fn default() -> (r: Self)
        ensures
            r@ == Seq::<V>::empty(),
            r.wf(),
    {
        IntMap::new()
    }
}

#[verifier::external_type_specification]
#[verifier::external_body]
#[verifier::reject_recursive_types(B)]
pub struct ExBitVec<B>(bit_vec::BitVec<B>);

/// The bits a `bit_vec::BitVec` holds, in order.
pub uninterp spec fn bit_vec_bits(bv: bit_vec::BitVec<u32>) -> Seq<bool>;

/// Relies on `bit_vec::BitVec::new`: the new vector holds no bits.
#[verifier::external_body]
fn bits_new() -> (r: bit_vec::BitVec<u32>)
    ensures
        bit_vec_bits(r).len() == 0,
{
    bit_vec::BitVec::new()
}

/// Relies on `bit_vec::BitVec::len`: the number of bits held.
#[verifier::external_body]
fn bits_len(bv: &bit_vec::BitVec<u32>) -> (r: usize)
    ensures
        r == bit_vec_bits(*bv).len(),
{
    bv.len()
}

/// Relies on `bit_vec::BitVec::get`: `Some` of bit `i` exactly when `i` is
/// below the length, `None` otherwise.
#[verifier::external_body]
fn bits_get(bv: &bit_vec::BitVec<u32>, i: usize) -> (r: Option<bool>)
    ensures
        r == if i < bit_vec_bits(*bv).len() {
            Some(bit_vec_bits(*bv)[i as int])
        } else {
            None::<bool>
        },
{
    bv.get(i)
}

/// Relies on `bit_vec::BitVec::set`: writes bit `i` and nothing else; it
/// panics on an index at or above the length, so that is required away.
#[verifier::external_body]
fn bits_set(bv: &mut bit_vec::BitVec<u32>, i: usize, b: bool)
    requires
        i < bit_vec_bits(*old(bv)).len(),
    ensures
        bit_vec_bits(*final(bv)) == bit_vec_bits(*old(bv)).update(i as int, b),
{
    bv.set(i, b)
}

/// Relies on `bit_vec::BitVec::grow`: appends `n` copies of the given bit;
/// it panics when the new length overflows `usize`, so that is required away.
#[verifier::external_body]
fn bits_grow(bv: &mut bit_vec::BitVec<u32>, n: usize, b: bool)
    requires
        bit_vec_bits(*old(bv)).len() + n <= usize::MAX,
    ensures
        bit_vec_bits(*final(bv)) == bit_vec_bits(*old(bv)) + Seq::new(n as nat, |j: int| b),
{
    bv.grow(n, b)
}

/// Relies on `bit_vec::BitVec::truncate`: keeps the first `n` bits when `n`
/// is below the length and does nothing otherwise; storage is retained.
#[verifier::external_body]
fn bits_truncate(bv: &mut bit_vec::BitVec<u32>, n: usize)
    ensures
        bit_vec_bits(*final(bv)) == if n < bit_vec_bits(*old(bv)).len() {
            bit_vec_bits(*old(bv)).take(n as int)
        } else {
            bit_vec_bits(*old(bv))
        },
{
    bv.truncate(n)
}

/// Relies on `bit_vec::BitVec::shrink_to_fit`: it only trims spare storage,
/// the bits stay as they are.
#[verifier::external_body]
fn bits_shrink_to_fit(bv: &mut bit_vec::BitVec<u32>)
    ensures
        bit_vec_bits(*final(bv)) == bit_vec_bits(*old(bv)),
{
    bv.shrink_to_fit()
}

/// The boolean specialization of `IntMap`, stored bit-packed for density.
///
/// The view is the sequence of bits; the `has`/`reserve`/`clear`/`free`
/// contract matches `IntMap` with `V = bool` and a pad of `false`.
pub struct IntMapBool<K: AsIndex> {
    map: bit_vec::BitVec<u32>,
    _marker: PhantomData<K>,
}

impl<K: AsIndex> View for IntMapBool<K> {
    type V = Seq<bool>;

    closed spec fn view(&self) -> Seq<bool> {
        bit_vec_bits(self.map)
    }
}

impl<K: AsIndex> IntMapBool<K> {
    /// Whether the bitset is sized to cover `k`.
    pub open spec fn spec_has(self, k: K) -> bool {
        k.key_index() < self@.len()
    }

    pub fn new() -> (r: Self)
        ensures
            r@ == Seq::<bool>::empty(),
    {
        let bv = bits_new();
        proof {
            assert(bit_vec_bits(bv) =~= Seq::<bool>::empty());
        }
        IntMapBool { map: bv, _marker: PhantomData }
    }

    /// The bitset's length: one more than the largest index ever reserved.
    pub fn len(&self) -> (r: usize)
        ensures
            r == self@.len(),
    {
        bits_len(&self.map)
    }

    /// True iff the bitset is sized to cover `k`.
    pub fn has(&self, k: K) -> (r: bool)
        ensures
            r == self.spec_has(k),
    {
        k.as_index() < bits_len(&self.map)
    }

    /// Reads the bit of `k`; the caller must have reserved `k` first.
    pub fn get(&self, k: K) -> (r: bool)
        requires
            self.spec_has(k),
        ensures
            r == self@[k.key_index()],
    {
        let index = k.as_index();
        match bits_get(&self.map, index) {
            Some(b) => b,
            None => unreached(),
        }
    }

    /// Writes the bit of `k`; the caller must have reserved `k` first.
    pub fn set(&mut self, k: K, b: bool)
        requires
            old(self).spec_has(k),
        ensures
            final(self)@ == old(self)@.update(k.key_index(), b),
    {
        let index = k.as_index();
        bits_set(&mut self.map, index, b);
    }

    /// Grows the bitset so that `has(key)` holds, filling new bits with
    /// `false`; a no-op if the bitset already covers `key`.
    pub fn reserve(&mut self, key: K)
        requires
            key.key_index() < usize::MAX as int,
        ensures
            final(self)@.len() == if old(self)@.len() > key.key_index() {
                old(self)@.len() as int
            } else {
                key.key_index() + 1
            },
            forall|i: int| 0 <= i < old(self)@.len() ==> final(self)@[i] == old(self)@[i],
            forall|i: int| old(self)@.len() <= i < final(self)@.len() ==> final(self)@[i] == false,
            final(self).spec_has(key),
    {
        let index = key.as_index();
        let len = bits_len(&self.map);
        proof {
            K::lemma_key_index_ok(key);
        }
        if index >= len {
            bits_grow(&mut self.map, index - len + 1, false);
        }
    }

    /// Logically empties the bitset (length zero), keeping its storage.
    pub fn clear(&mut self)
        ensures
            final(self)@ == Seq::<bool>::empty(),
            forall|k: K| !final(self).spec_has(k),
            final(self)@.len() == 0,
    {
        bits_truncate(&mut self.map, 0);
        proof {
            assert(bit_vec_bits(self.map) =~= Seq::<bool>::empty());
            assert forall|k: K| !self.spec_has(k) by {
                K::lemma_key_index_ok(k);
            }
        }
    }

    /// Empties the bitset and releases its storage.
    pub fn free(&mut self)
        ensures
            final(self)@ == Seq::<bool>::empty(),
            forall|k: K| !final(self).spec_has(k),
    {
        bits_truncate(&mut self.map, 0);
        bits_shrink_to_fit(&mut self.map);
        proof {
            assert(bit_vec_bits(self.map) =~= Seq::<bool>::empty());
            assert forall|k: K| !self.spec_has(k) by {
                K::lemma_key_index_ok(k);
            }
        }
    }

    /// Reserves `key` and sets its bit: the one-call form for write-once
    /// "seen" flags.
    pub fn insert(&mut self, key: K)
        requires
            key.key_index() < usize::MAX as int,
        ensures
            final(self)@.len() == if old(self)@.len() > key.key_index() {
                old(self)@.len() as int
            } else {
                key.key_index() + 1
            },
            final(self)@[key.key_index()] == true,
            forall|i: int|
                0 <= i < old(self)@.len() && i != key.key_index()
                    ==> final(self)@[i] == old(self)@[i],
            forall|i: int|
                old(self)@.len() <= i < final(self)@.len() && i != key.key_index()
                    ==> final(self)@[i] == false,
            final(self).spec_has(key),
    {
        self.reserve(key);
        let index = key.as_index();
        bits_set(&mut self.map, index, true);
    }
}

impl<K: AsIndex> Default for IntMapBool<K> {
    fn default() -> (r: Self)
        ensures
            r@ == Seq::<bool>::empty(),
    {
        IntMapBool::new()
    }
}

/// An insertion-ordered set of keys: a membership bitset plus the list of
/// members in order of first insertion.
///
/// The view is the ordered member list. In a well-formed set the list holds
/// each member exactly once, so its length is the number of distinct keys
/// ever inserted since the last clear.
pub struct IntSet<K: AsIndex> {
    in_set: IntMapBool<K>,
    xs: Vec<K>,
}

impl<K: AsIndex> View for IntSet<K> {
    type V = Seq<K>;

    closed spec fn view(&self) -> Seq<K> {
        self.xs@
    }
}

impl<K: AsIndex> IntSet<K> {
    /// Membership of `k`: its bit is reserved and set.
    pub closed spec fn spec_has(self, k: K) -> bool {
        self.in_set.spec_has(k) && self.in_set@[k.key_index()]
    }

    /// The member list and the membership bitset agree: the list holds keys
    /// with distinct indices, each with its bit set, and every set bit is
    /// the index of some listed key.
    pub closed spec fn wf(self) -> bool {
        &&& forall|i: int, j: int|
            0 <= i < j < self.xs@.len() ==> (#[trigger] self.xs@[i]).key_index() != (
            #[trigger] self.xs@[j]).key_index()
        &&& forall|i: int|
            0 <= i < self.xs@.len() ==> self.spec_has(#[trigger] self.xs@[i])
        &&& forall|n: int|
            0 <= n < self.in_set@.len() && #[trigger] self.in_set@[n] ==> exists|i: int|
                0 <= i < self.xs@.len() && (#[trigger] self.xs@[i]).key_index() == n
    }

    pub fn new() -> (r: Self)
        ensures
            r@ == Seq::<K>::empty(),
            r.wf(),
    {
        IntSet { in_set: IntMapBool::new(), xs: Vec::new() }
    }

    /// The number of distinct keys inserted since the last clear.
    pub fn len(&self) -> (r: usize)
        ensures
            r == self@.len(),
    {
        self.xs.len()
    }

    /// Empties the set, keeping storage for reuse.
    pub fn clear(&mut self)
        ensures
            final(self)@ == Seq::<K>::empty(),
            forall|k: K| !final(self).spec_has(k),
            final(self).wf(),
    {
        self.in_set.clear();
        self.xs.clear();
    }

    /// The members in order of first insertion.
    pub fn as_slice(&self) -> (r: &[K])
        ensures
            r@ == self@,
    {
        self.xs.as_slice()
    }

    /// The member at position `i` of the insertion order.
    pub fn get_at(&self, i: usize) -> (r: K)
        requires
            i < self@.len(),
        ensures
            r == self@[i as int],
    {
        self.xs[i]
    }

    /// Adds `k` unless it is already a member; a new member goes to the end
    /// of the ordered list, so repeated insertions are no-ops and the list
    /// stays duplicate-free in first-insertion order.
    pub fn insert(&mut self, k: K)
        requires
            old(self).wf(),
            k.key_index() < usize::MAX as int,
        ensures
            final(self).wf(),
            final(self).spec_has(k),
            old(self).spec_has(k) ==> final(self)@ == old(self)@,
            !old(self).spec_has(k) ==> final(self)@ == old(self)@.push(k),
            forall|k2: K|
                final(self).spec_has(k2) <==> old(self).spec_has(k2) || k2.key_index()
                    == k.key_index(),
    {
        proof {
            K::lemma_key_index_ok(k);
        }
        self.in_set.reserve(k);
        let ghost bits1 = self.in_set@;
        if !self.in_set.get(k) {
            self.in_set.set(k, true);
            self.xs.push(k);
            proof {
                let nk = k.key_index();
                assert(bits1[nk] == false);
                assert(self.in_set@ == bits1.update(nk, true));
                assert(self.xs@ == old(self).xs@.push(k));
                assert forall|i: int|
                    0 <= i < old(self).xs@.len() implies old(self).spec_has(
                    #[trigger] old(self).xs@[i],
                ) && old(self).xs@[i].key_index() != nk by {
                    K::lemma_key_index_ok(old(self).xs@[i]);
                }
                assert forall|i: int|
                    0 <= i < self.xs@.len() implies self.spec_has(#[trigger] self.xs@[i]) by {
                    K::lemma_key_index_ok(self.xs@[i]);
                }
                assert forall|n: int|
                    0 <= n < self.in_set@.len() && #[trigger] self.in_set@[n] implies exists|i: int|
                    0 <= i < self.xs@.len() && (#[trigger] self.xs@[i]).key_index() == n by {
                    if n == nk {
                        assert(self.xs@[self.xs@.len() - 1].key_index() == n);
                    } else {
                        assert(self.in_set@[n] == bits1[n]);
                        if n < old(self).in_set@.len() {
                            assert(bits1[n] == old(self).in_set@[n]);
                            let i = choose|i: int|
                                0 <= i < old(self).xs@.len() && (#[trigger] old(
                                    self,
                                ).xs@[i]).key_index() == n;
                            assert(self.xs@[i] == old(self).xs@[i]);
                            assert(self.xs@[i].key_index() == n);
                        } else {
                            assert(bits1[n] == false);
                        }
                    }
                }
            }
        } else {
            proof {
                assert(self.in_set@ == bits1);
                assert forall|k2: K|
                    final(self).spec_has(k2) <==> old(self).spec_has(k2) || k2.key_index()
                        == k.key_index() by {
                    K::lemma_key_index_ok(k2);
                }
                assert forall|n: int|
                    0 <= n < self.in_set@.len() && #[trigger] self.in_set@[n] implies exists|i: int|
                    0 <= i < self.xs@.len() && (#[trigger] self.xs@[i]).key_index() == n by {
                    if n < old(self).in_set@.len() {
                        assert(old(self).in_set@[n]);
                    } else {
                        assert(bits1[n] == false);
                    }
                }
                assert forall|i: int|
                    0 <= i < self.xs@.len() implies self.spec_has(#[trigger] self.xs@[i]) by {
                    K::lemma_key_index_ok(self.xs@[i]);
                }
            }
        }
        proof {
            assert forall|k2: K|
                final(self).spec_has(k2) <==> old(self).spec_has(k2) || k2.key_index()
                    == k.key_index() by {
                K::lemma_key_index_ok(k2);
            }
        }
    }

    /// True iff `k` is a member; false — not a failure — for a key whose
    /// bit was never reserved.
    pub fn has(&self, k: K) -> (r: bool)
        ensures
            r == self.spec_has(k),
    {
        self.in_set.has(k) && self.in_set.get(k)
    }
}

impl<K: AsIndex> Default for IntSet<K> {
    fn default() -> (r: Self)
        ensures
            r@ == Seq::<K>::empty(),
            r.wf(),
    {
        IntSet::new()
    }
}

/// Law: in a well-formed set the ordered list repeats no key: any two
/// positions hold keys with distinct indices, hence distinct keys.
pub proof fn lemma_set_list_distinct<K: AsIndex>(s: IntSet<K>, i: int, j: int)
    requires
        s.wf(),
        0 <= i < j < s@.len(),
    ensures
        s@[i].key_index() != s@[j].key_index(),
        s@[i] != s@[j],
{
}

/// Law: in a well-formed set, membership and the ordered list agree — a key
/// is a member exactly when the list contains it.
pub proof fn lemma_set_membership<K: AsIndex>(s: IntSet<K>, k: K)
    requires
        s.wf(),
    ensures
        s.spec_has(k) <==> s@.contains(k),
{
    K::lemma_key_index_ok(k);
    if s.spec_has(k) {
        assert(exists|i: int|
            0 <= i < s.xs@.len() && (#[trigger] s.xs@[i]).key_index() == k.key_index());
        let i = choose|i: int|
            0 <= i < s.xs@.len() && (#[trigger] s.xs@[i]).key_index() == k.key_index();
        K::lemma_key_index_injective(s.xs@[i], k);
        assert(s@.contains(k)) by {
            assert(0 <= i < s@.len() && s@[i] == k);
        }
    }
    if s@.contains(k) {
        let i = choose|i: int| 0 <= i < s@.len() && s@[i] == k;
        assert(s.spec_has(s.xs@[i]));
    }
}

/// Law: a map whose length has been reset to zero covers no key at all.
pub proof fn lemma_cleared_map_has_nothing<K: AsIndex, V>(m: IntMap<K, V>, k: K)
    requires
        m@.len() == 0,
    ensures
        !m.spec_has(k),
{
    K::lemma_key_index_ok(k);
}

/// Law: a map long enough to cover the index of `k` has `k`; in particular,
/// after any sequence of reserves the length `1 + max(reserved index)`
/// covers every reserved key.
pub proof fn lemma_sized_map_has_key<K: AsIndex, V>(m: IntMap<K, V>, k: K)
    requires
        m@.len() > k.key_index(),
    ensures
        m.spec_has(k),
{
}

} // verus!
