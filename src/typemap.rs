//! A store that keeps at most one value of each type, keyed by the type.
use vstd::prelude::*;
use std::any::{Any, TypeId};

verus! {

#[verifier::external_type_specification]
#[verifier::external_body]
pub struct ExTypeId(TypeId);

/// A value whose type has been erased, kept with the means to recover it.
/// Its content is a `Box<dyn Any + Send + Sync>`, a type that Verus cannot
/// declare, so the struct is opaque.
#[verifier::external_body]
pub struct Erased(Box<dyn Any + Send + Sync>);

/// The identity of the type of the value that `e` holds.
pub uninterp spec fn type_of_erased(e: Erased) -> TypeId;

/// Relies on `TypeId::of` and `Box::new`: the key is the identity of `T`,
/// which is also the identity that `<dyn Any>::type_id` gives for the boxed
/// value.
#[verifier::external_body]
fn erase<T: Send + Sync + 'static>(value: T) -> (r: (TypeId, Erased))
    ensures
        type_of_erased(r.1) == r.0,
{
    (TypeId::of::<T>(), Erased(Box::new(value)))
}

/// Relies on `TypeId::of`: the identity of the type `T`.
#[verifier::external_body]
fn type_key<T: 'static>() -> TypeId {
    TypeId::of::<T>()
}

/// Relies on `<TypeId as PartialEq>::eq`: two identities are equal exactly
/// when they are the same value.
#[verifier::external_body]
fn same_type(a: &TypeId, b: &TypeId) -> (r: bool)
    ensures
        r == (*a == *b),
{
    *a == *b
}

/// Relies on `<dyn Any>::downcast_ref`: a reference to the value where it is
/// of type `T`.
#[verifier::external_body]
fn downcast_ref<T: 'static>(e: &Erased) -> Option<&T> {
    e.0.downcast_ref::<T>()
}

/// Relies on `<dyn Any>::downcast_mut`: a mutable reference to the value
/// where it is of type `T`.
#[verifier::external_body]
fn downcast_mut<T: 'static>(e: &mut Erased) -> Option<&mut T> {
    e.0.downcast_mut::<T>()
}

/// Relies on `Box::<dyn Any>::downcast`: the value itself where it is of
/// type `T`.
#[verifier::external_body]
fn downcast<T: 'static>(e: Erased) -> Option<T> {
    e.0.downcast::<T>().ok().map(|b| *b)
}

/// `true` when no two entries of `s` have the same key.
pub open spec fn keys_unique(s: Seq<(TypeId, Erased)>) -> bool {
    forall|i: int, j: int| 0 <= i < s.len() && 0 <= j < s.len() && i != j ==> s[i].0 != s[j].0
}

/// `true` when `s` has an entry with key `k`.
pub open spec fn has_key(s: Seq<(TypeId, Erased)>, k: TypeId) -> bool {
    exists|i: int| 0 <= i < s.len() && s[i].0 == k
}

/// The map from key to value that the entries `s` hold.
pub open spec fn entries_map(s: Seq<(TypeId, Erased)>) -> Map<TypeId, Erased> {
    Map::new(
        |k: TypeId| has_key(s, k),
        |k: TypeId| s[choose|i: int| 0 <= i < s.len() && s[i].0 == k].1,
    )
}

proof fn lemma_entry_at(s: Seq<(TypeId, Erased)>, i: int)
    requires
        keys_unique(s),
        0 <= i < s.len(),
    ensures
        entries_map(s).contains_key(s[i].0),
        entries_map(s)[s[i].0] == s[i].1,
{
    let k = s[i].0;
    assert(has_key(s, k));
    let j = choose|j: int| 0 <= j < s.len() && s[j].0 == k;
    assert(j == i);
}

proof fn lemma_no_entry(s: Seq<(TypeId, Erased)>, k: TypeId)
    requires
        forall|i: int| 0 <= i < s.len() ==> s[i].0 != k,
    ensures
        !entries_map(s).contains_key(k),
{
}

/// A store of at most one value per type. Each value is kept under the
/// identity of its own type.
pub struct TypeMap {
    entries: Vec<(TypeId, Erased)>,
}

impl View for TypeMap {
    type V = Map<TypeId, Erased>;

    closed spec fn view(&self) -> Map<TypeId, Erased> {
        entries_map(self.entries@)
    }
}

impl TypeMap {
    /// The store's invariant: one entry per key, and every value kept under
    /// the identity of its type.
    pub closed spec fn wf(&self) -> bool {
        &&& keys_unique(self.entries@)
        &&& forall|i: int|
            0 <= i < self.entries@.len() ==> type_of_erased(#[trigger] self.entries@[i].1)
                == self.entries@[i].0
    }

    /// An empty store.
    pub fn new() -> (r: TypeMap)
        ensures
            r.wf(),
            r@ == Map::<TypeId, Erased>::empty(),
    {
        let r = TypeMap { entries: Vec::new() };
        assert(r@ =~= Map::<TypeId, Erased>::empty());
        r
    }

    /// Position of the entry with key `k`.
    fn position(&self, k: &TypeId) -> (r: Option<usize>)
        requires
            self.wf(),
        ensures
            r.is_none() <==> !self@.contains_key(*k),
            r.is_some() ==> r.unwrap() < self.entries@.len() && self.entries@[r.unwrap() as int].0
                == *k,
    {
        let mut i: usize = 0;
        while i < self.entries.len()
            invariant
                self.wf(),
                0 <= i <= self.entries@.len(),
                forall|j: int| 0 <= j < i ==> self.entries@[j].0 != *k,
            decreases self.entries@.len() - i,
        {
            if same_type(&self.entries[i].0, k) {
                proof {
                    lemma_entry_at(self.entries@, i as int);
                }
                return Some(i);
            }
            i = i + 1;
        }
        proof {
            lemma_no_entry(self.entries@, *k);
        }
        None
    }

    /// `true` when the store holds a value under the key `k`.
    pub fn contains_entry(&self, k: &TypeId) -> (r: bool)
        requires
            self.wf(),
        ensures
            r == self@.contains_key(*k),
    {
        self.position(k).is_some()
    }

    /// The value kept under the key `k`.
    pub fn entry(&self, k: &TypeId) -> (r: Option<&Erased>)
        requires
            self.wf(),
        ensures
            r.is_some() == self@.contains_key(*k),
            r.is_some() ==> *r.unwrap() == self@[*k],
    {
        match self.position(k) {
            Some(i) => {
                proof {
                    lemma_entry_at(self.entries@, i as int);
                }
                Some(&self.entries[i].1)
            },
            None => None,
        }
    }

    /// Keeps `e` under the key `k`, in place of any value kept there.
    pub fn insert_entry(&mut self, k: TypeId, e: Erased)
        requires
            old(self).wf(),
            type_of_erased(e) == k,
        ensures
            final(self).wf(),
            final(self)@ == old(self)@.insert(k, e),
    {
        let ghost before = self.entries@;
        match self.position(&k) {
            Some(i) => {
                self.entries.set(i, (k, e));
                proof {
                    let after = self.entries@;
                    assert(keys_unique(after));
                    assert forall|kk: TypeId| #[trigger] entries_map(after).contains_key(kk)
                        == entries_map(before).insert(k, e).contains_key(kk) by {
                        if entries_map(before).contains_key(kk) {
                            let j = choose|j: int| 0 <= j < before.len() && before[j].0 == kk;
                            assert(after[j].0 == kk);
                        }
                        if entries_map(after).contains_key(kk) {
                            let j = choose|j: int| 0 <= j < after.len() && after[j].0 == kk;
                            assert(before[j].0 == kk);
                        }
                    }
                    assert forall|kk: TypeId| #[trigger] entries_map(after).contains_key(kk)
                        implies entries_map(after)[kk] == entries_map(before).insert(k, e)[kk] by {
                        let j = choose|j: int| 0 <= j < after.len() && after[j].0 == kk;
                        lemma_entry_at(after, j);
                        if j != i {
                            lemma_entry_at(before, j);
                        }
                    }
                    assert(entries_map(after) =~= entries_map(before).insert(k, e));
                }
            },
            None => {
                self.entries.push((k, e));
                proof {
                    let after = self.entries@;
                    let n = before.len() as int;
                    assert(forall|j: int| 0 <= j < n ==> before[j].0 != k) by {
                        if exists|j: int| 0 <= j < n && before[j].0 == k {
                            let j = choose|j: int| 0 <= j < n && before[j].0 == k;
                            lemma_entry_at(before, j);
                        }
                    }
                    assert(keys_unique(after));
                    assert forall|kk: TypeId| #[trigger] entries_map(after).contains_key(kk)
                        == entries_map(before).insert(k, e).contains_key(kk) by {
                        if entries_map(before).contains_key(kk) {
                            let j = choose|j: int| 0 <= j < before.len() && before[j].0 == kk;
                            assert(after[j].0 == kk);
                        }
                        if kk == k {
                            assert(after[n].0 == kk);
                        }
                        if entries_map(after).contains_key(kk) && kk != k {
                            let j = choose|j: int| 0 <= j < after.len() && after[j].0 == kk;
                            assert(before[j].0 == kk);
                        }
                    }
                    assert forall|kk: TypeId| #[trigger] entries_map(after).contains_key(kk)
                        implies entries_map(after)[kk] == entries_map(before).insert(k, e)[kk] by {
                        let j = choose|j: int| 0 <= j < after.len() && after[j].0 == kk;
                        lemma_entry_at(after, j);
                        if j != n {
                            lemma_entry_at(before, j);
                        }
                    }
                    assert(entries_map(after) =~= entries_map(before).insert(k, e));
                }
            },
        }
    }

    /// Keeps `e` under the key `k` only if no value is kept there; `true`
    /// when it did. The test and the insertion are one step, so of two such
    /// calls with one key at most one inserts.
    pub fn insert_entry_if_absent(&mut self, k: TypeId, e: Erased) -> (r: bool)
        requires
            old(self).wf(),
            type_of_erased(e) == k,
        ensures
            final(self).wf(),
            (r, final(self)@) == claim(old(self)@, k, e),
    {
        if self.contains_entry(&k) {
            false
        } else {
            self.insert_entry(k, e);
            true
        }
    }

    /// Takes out the value kept under the key `k`.
    pub fn remove_entry(&mut self, k: &TypeId) -> (r: Option<Erased>)
        requires
            old(self).wf(),
        ensures
            final(self).wf(),
            final(self)@ == old(self)@.remove(*k),
            r.is_some() == old(self)@.contains_key(*k),
            r.is_some() ==> r.unwrap() == old(self)@[*k],
    {
        let ghost before = self.entries@;
        match self.position(k) {
            Some(i) => {
                proof {
                    lemma_entry_at(before, i as int);
                }
                let (_, e) = self.entries.remove(i);
                proof {
                    let after = self.entries@;
                    assert(after =~= before.remove(i as int));
                    assert forall|a: int, b: int|
                        0 <= a < after.len() && 0 <= b < after.len() && a != b implies after[a].0
                        != after[b].0 by {
                        let a2 = if a < i { a } else { a + 1 };
                        let b2 = if b < i { b } else { b + 1 };
                        assert(after[a] == before[a2]);
                        assert(after[b] == before[b2]);
                    }
                    assert forall|j: int| 0 <= j < after.len() implies type_of_erased(
                        #[trigger] after[j].1,
                    ) == after[j].0 by {
                        let j2 = if j < i { j } else { j + 1 };
                        assert(after[j] == before[j2]);
                    }
                    assert forall|kk: TypeId| #[trigger] entries_map(after).contains_key(kk)
                        == entries_map(before).remove(*k).contains_key(kk) by {
                        if entries_map(before).contains_key(kk) && kk != *k {
                            let j = choose|j: int| 0 <= j < before.len() && before[j].0 == kk;
                            assert(j != i);
                            let j3 = if j < i { j } else { j - 1 };
                            assert(after[j3] == before[j]);
                        }
                        if entries_map(after).contains_key(kk) {
                            let j = choose|j: int| 0 <= j < after.len() && after[j].0 == kk;
                            let j2 = if j < i { j } else { j + 1 };
                            assert(after[j] == before[j2]);
                            assert(j2 != i);
                        }
                    }
                    assert forall|kk: TypeId| #[trigger] entries_map(after).contains_key(kk)
                        implies entries_map(after)[kk] == entries_map(before).remove(*k)[kk] by {
                        let j = choose|j: int| 0 <= j < after.len() && after[j].0 == kk;
                        let j2 = if j < i { j } else { j + 1 };
                        assert(after[j] == before[j2]);
                        lemma_entry_at(after, j);
                        lemma_entry_at(before, j2);
                    }
                    assert(entries_map(after) =~= entries_map(before).remove(*k));
                }
                Some(e)
            },
            None => {
                assert(self@ =~= self@.remove(*k));
                None
            },
        }
    }
}

impl TypeMap {
    /// The value of type `T`, if the store holds one. Which key stands for
    /// `T` is the runtime's type identity, which no contract can name; so
    /// beyond this, the relation of a read to an insertion of the same type
    /// is stated by the keyed functions above.
    pub fn get<T: 'static>(&self) -> (r: Option<&T>)
        requires
            self.wf(),
        ensures
            self@ == Map::<TypeId, Erased>::empty() ==> r.is_none(),
    {
        let k = type_key::<T>();
        match self.entry(&k) {
            Some(e) => downcast_ref::<T>(e),
            None => None,
        }
    }

    /// A mutable reference to the value of type `T`, if the store holds one.
    pub fn get_mut<T: 'static>(&mut self) -> (r: Option<&mut T>)
        requires
            old(self).wf(),
        ensures
            old(self)@ == Map::<TypeId, Erased>::empty() ==> r.is_none(),
    {
        let k = type_key::<T>();
        match self.position(&k) {
            Some(i) => downcast_mut::<T>(&mut self.entries[i].1),
            None => None,
        }
    }

    /// Keeps `value` under the identity of its type `T`, in place of any
    /// value of that type.
    pub fn insert<T: Send + Sync + 'static>(&mut self, value: T)
        requires
            old(self).wf(),
        ensures
            final(self).wf(),
            exists|k: TypeId, e: Erased|
                type_of_erased(e) == k && final(self)@ == old(self)@.insert(k, e),
    {
        let (k, e) = erase(value);
        self.insert_entry(k, e);
    }

    /// Keeps `value` only if the store holds no value of type `T`; `true`
    /// when it did.
    pub fn insert_if_absent<T: Send + Sync + 'static>(&mut self, value: T) -> (r: bool)
        requires
            old(self).wf(),
        ensures
            final(self).wf(),
            exists|k: TypeId, e: Erased|
                type_of_erased(e) == k && (r, final(self)@) == claim(old(self)@, k, e),
    {
        let (k, e) = erase(value);
        self.insert_entry_if_absent(k, e)
    }

    /// Takes out the value of type `T`, if the store holds one.
    pub fn remove<T: 'static>(&mut self) -> (r: Option<T>)
        requires
            old(self).wf(),
        ensures
            final(self).wf(),
            exists|k: TypeId| final(self)@ == old(self)@.remove(k),
            old(self)@ == Map::<TypeId, Erased>::empty() ==> r.is_none(),
    {
        let k = type_key::<T>();
        match self.remove_entry(&k) {
            Some(e) => downcast::<T>(e),
            None => None,
        }
    }

    /// `true` when the store holds a value of type `T`.
    pub fn contains_key<T: 'static>(&self) -> (r: bool)
        requires
            self.wf(),
        ensures
            r ==> exists|k: TypeId| self@.contains_key(k),
    {
        let k = type_key::<T>();
        self.contains_entry(&k)
    }
}

/// What is kept under a key is what a read of that key gives; a second
/// insertion under one key leaves only the second value; a key under which
/// nothing was inserted has no value.
pub proof fn lemma_insert_then_get(
    m: Map<TypeId, Erased>,
    k: TypeId,
    u: TypeId,
    e1: Erased,
    e2: Erased,
)
    requires
        !m.contains_key(u),
        u != k,
    ensures
        m.insert(k, e1).contains_key(k),
        m.insert(k, e1)[k] == e1,
        m.insert(k, e1).insert(k, e2)[k] == e2,
        m.insert(k, e1).insert(k, e2) == m.insert(k, e2),
        !m.insert(k, e1).contains_key(u),
        !m.insert(k, e1).insert(k, e2).contains_key(u),
{
    assert(m.insert(k, e1).insert(k, e2) =~= m.insert(k, e2));
}

/// Of two claims of one key, one after the other, at most one succeeds, and
/// the first does when the key had no value: one value, and one only, is
/// ever created for a key.
pub proof fn lemma_claim_once(m: Map<TypeId, Erased>, k: TypeId, e1: Erased, e2: Erased)
    ensures
        !(claim(m, k, e1).0 && claim(claim(m, k, e1).1, k, e2).0),
        !m.contains_key(k) ==> claim(m, k, e1).0,
        claim(claim(m, k, e1).1, k, e2).1.contains_key(k),
{
}

/// The answer and the map after a claim of the key `k` for `e` on `m`: only
/// a key with no value yet is claimed.
pub open spec fn claim(m: Map<TypeId, Erased>, k: TypeId, e: Erased) -> (bool, Map<TypeId, Erased>) {
    if m.contains_key(k) {
        (false, m)
    } else {
        (true, m.insert(k, e))
    }
}

} // verus!
