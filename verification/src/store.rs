//! Module-scoped identifier stores.
//!
//! A store maps globally unique identifiers to items. The high 32 bits of an
//! identifier hold the id of the module that created it, the low 32 bits a
//! per-store counter, so stores of distinct modules can later be merged
//! without collisions. Items can be carried across compiler passes with
//! `transmute`, which keeps the identifiers of all surviving entries.

use vstd::prelude::*;

verus! {

/// Raw identifiers: module id in the high half, counter in the low half.
pub type Id = u64;

/// The module id that makes the high half of a raw identifier.
pub type ModId = u32;

/// The raw identifier built from a module id and a per-store counter.
pub open spec fn encode_id(mod_id: ModId, counter: u32) -> Id {
    ((mod_id as u64) << 32) | (counter as u64)
}

/// The module half of a raw identifier.
pub open spec fn id_module(id: Id) -> ModId {
    (id >> 32) as u32
}

/// The counter half of a raw identifier.
pub open spec fn id_counter(id: Id) -> u32 {
    id as u32
}

/// Decoding a freshly encoded identifier yields the module id and counter
/// it was built from.
pub broadcast proof fn lemma_id_decode(mod_id: ModId, counter: u32)
    ensures
        id_module(#[trigger] encode_id(mod_id, counter)) == mod_id,
        id_counter(encode_id(mod_id, counter)) == counter,
{
    assert((((mod_id as u64) << 32) | (counter as u64)) >> 32 == mod_id as u64
        && (((mod_id as u64) << 32) | (counter as u64)) as u32 == counter) by (bit_vector);
}

/// A trait implemented by an identifier type (a type that wraps a raw id).
pub trait Identifier: Sized + Copy {
    /// The raw identifier carried by this value.
    spec fn id_spec(&self) -> Id;

    /// Wraps a raw identifier.
    fn new(id: Id) -> (r: Self)
        ensures
            r.id_spec() == id,
    ;

    /// Returns the raw identifier.
    fn raw(&self) -> (r: Id)
        ensures
            r == self.id_spec(),
    ;
}

/// Identifier of a function.
#[derive(Eq, PartialEq, Hash, Copy, Clone, Debug, Ord, PartialOrd, Structural)]
pub struct FunId(Id);

/// Identifier of a data segment.
#[derive(Eq, PartialEq, Hash, Copy, Clone, Debug, Ord, PartialOrd, Structural)]
pub struct DataId(Id);

/// Identifier of a struct.
#[derive(Eq, PartialEq, Hash, Copy, Clone, Debug, Ord, PartialOrd, Structural)]
pub struct StructId(Id);

/// Identifier of a tuple.
#[derive(Eq, PartialEq, Hash, Copy, Clone, Debug, Ord, PartialOrd, Structural)]
pub struct TupleId(Id);

/// Identifier of a concrete type.
#[derive(Eq, PartialEq, Hash, Copy, Clone, Debug, Ord, PartialOrd, Structural)]
pub struct TypeId(Id);

/// Identifier of a type variable.
#[derive(Eq, PartialEq, Hash, Copy, Clone, Debug, Ord, PartialOrd, Structural)]
pub struct TypeVarId(Id);

/// Identifier of a bound name.
#[derive(Eq, PartialEq, Hash, Copy, Clone, Debug, Ord, PartialOrd, Structural)]
pub struct NameId(Id);

/// True when no two entries of `s` carry the same raw identifier.
pub open spec fn distinct_keys<T>(s: Seq<(Id, T)>) -> bool {
    forall|i: int, j: int| 0 <= i < j < s.len() ==> (#[trigger] s[i]).0 != (#[trigger] s[j]).0
}

/// The index of the entry of `s` carrying the raw identifier `id`.
pub open spec fn key_index<T>(s: Seq<(Id, T)>, id: Id) -> int {
    choose|i: int| 0 <= i < s.len() && s[i].0 == id
}

/// True when an entry of `s` at index `lo` or beyond carries the key `k`.
pub open spec fn contains_key_from<T>(s: Seq<(Id, T)>, lo: int, k: Id) -> bool {
    exists|i: int| lo <= i < s.len() && (#[trigger] s[i]).0 == k
}

/// Lowering the bound by one admits exactly the entry at the new index.
pub proof fn lemma_contains_key_step<T>(s: Seq<(Id, T)>, lo: int, k: Id)
    requires
        0 < lo <= s.len(),
    ensures
        contains_key_from(s, lo - 1, k) <==> (contains_key_from(s, lo, k) || s[lo - 1].0 == k),
{
    if s[lo - 1].0 == k {
        assert((#[trigger] s[lo - 1]).0 == k);
        assert(contains_key_from(s, lo - 1, k));
    }
    if contains_key_from(s, lo, k) {
        let i = choose|i: int| lo <= i < s.len() && (#[trigger] s[i]).0 == k;
        assert(lo - 1 <= i < s.len() && (#[trigger] s[i]).0 == k);
    }
    if contains_key_from(s, lo - 1, k) && s[lo - 1].0 != k {
        let i = choose|i: int| lo - 1 <= i < s.len() && (#[trigger] s[i]).0 == k;
        assert(i != lo - 1);
        assert(lo <= i < s.len() && (#[trigger] s[i]).0 == k);
    }
}

/// With distinct keys, `key_index` finds exactly the entry's own index.
pub proof fn lemma_key_index<T>(s: Seq<(Id, T)>, i: int)
    requires
        distinct_keys(s),
        0 <= i < s.len(),
    ensures
        key_index(s, s[i].0) == i,
{
    let k = s[i].0;
    let j = key_index(s, k);
    assert(0 <= j < s.len() && s[j].0 == k);
    if i < j {
        assert(s[i].0 != s[j].0);
    } else if j < i {
        assert(s[j].0 != s[i].0);
    }
}

impl Identifier for FunId {
    closed spec fn id_spec(&self) -> Id {
        self.0
    }

    fn new(id: Id) -> (r: Self) {
        FunId(id)
    }

    fn raw(&self) -> (r: Id) {
        self.0
    }
}

impl Identifier for DataId {
    closed spec fn id_spec(&self) -> Id {
        self.0
    }

    fn new(id: Id) -> (r: Self) {
        DataId(id)
    }

    fn raw(&self) -> (r: Id) {
        self.0
    }
}

impl Identifier for StructId {
    closed spec fn id_spec(&self) -> Id {
        self.0
    }

    fn new(id: Id) -> (r: Self) {
        StructId(id)
    }

    fn raw(&self) -> (r: Id) {
        self.0
    }
}

impl Identifier for TupleId {
    closed spec fn id_spec(&self) -> Id {
        self.0
    }

    fn new(id: Id) -> (r: Self) {
        TupleId(id)
    }

    fn raw(&self) -> (r: Id) {
        self.0
    }
}

impl Identifier for TypeId {
    closed spec fn id_spec(&self) -> Id {
        self.0
    }

    fn new(id: Id) -> (r: Self) {
        TypeId(id)
    }

    fn raw(&self) -> (r: Id) {
        self.0
    }
}

impl Identifier for TypeVarId {
    closed spec fn id_spec(&self) -> Id {
        self.0
    }

    fn new(id: Id) -> (r: Self) {
        TypeVarId(id)
    }

    fn raw(&self) -> (r: Id) {
        self.0
    }
}

impl Identifier for NameId {
    closed spec fn id_spec(&self) -> Id {
        self.0
    }

    fn new(id: Id) -> (r: Self) {
        NameId(id)
    }

    fn raw(&self) -> (r: Id) {
        self.0
    }
}

/// The entries of a backing vector as (raw identifier, item) pairs.
pub open spec fn entries_of<I: Identifier, T>(s: Seq<(I, T)>) -> Seq<(Id, T)> {
    s.map(|i: int, p: (I, T)| (p.0.id_spec(), p.1))
}

/// A map from identifiers of kind `I` to items of type `T`, owning the module
/// id and counter from which its fresh identifiers are built, and the set of
/// module ids already merged in.
pub struct Store<I, T> {
    mod_id: ModId,
    counter: u32,
    data: Vec<(I, T)>,
    merged_mods: Vec<ModId>,
}

impl<I: Identifier, T> Store<I, T> {
    /// The module id this store creates identifiers for.
    pub closed spec fn mod_id_spec(&self) -> ModId {
        self.mod_id
    }

    /// The counter the next fresh identifier is built from.
    pub closed spec fn counter_spec(&self) -> u32 {
        self.counter
    }

    /// The module ids already merged into this store.
    pub closed spec fn merged(&self) -> Set<ModId> {
        self.merged_mods@.to_set()
    }

    /// The entries of the store, as (raw identifier, item) pairs.
    pub closed spec fn kvs(&self) -> Seq<(Id, T)> {
        self.data@.map(|i: int, p: (I, T)| (p.0.id_spec(), p.1))
    }

    /// True when the store holds an entry for the raw identifier `id`.
    pub open spec fn contains_id(&self, id: Id) -> bool {
        exists|i: int| 0 <= i < self.kvs().len() && (#[trigger] self.kvs()[i]).0 == id
    }

    /// The item stored under the raw identifier `id`.
    pub open spec fn spec_get(&self, id: Id) -> T
        recommends
            self.contains_id(id),
    {
        self.kvs()[key_index(self.kvs(), id)].1
    }

    /// Every entry's identifier either was created by this store (its module
    /// half is the store's and its counter half is below the store's counter)
    /// or came from a module merged in, and no identifier appears twice.
    pub open spec fn wf(&self) -> bool {
        &&& distinct_keys(self.kvs())
        &&& forall|i: int| 0 <= i < self.kvs().len() ==> {
            let k = (#[trigger] self.kvs()[i]).0;
            if id_module(k) == self.mod_id_spec() {
                id_counter(k) < self.counter_spec()
            } else {
                self.merged().contains(id_module(k))
            }
        }
    }

    /// Creates an empty store for the module `mod_id`.
    pub fn new(mod_id: ModId) -> (r: Self)
        ensures
            r.mod_id_spec() == mod_id,
            r.counter_spec() == 0,
            r.kvs() == Seq::<(Id, T)>::empty(),
            r.merged() == Set::<ModId>::empty(),
            r.wf(),
    {
        let r = Store { mod_id, counter: 0, data: Vec::new(), merged_mods: Vec::new() };
        proof {
            assert(r.kvs() =~= Seq::<(Id, T)>::empty());
            assert(r.merged() =~= Set::<ModId>::empty());
        }
        r
    }

    /// Creates an empty store for the module `mod_id` that can hold at least
    /// `capacity` items without re-allocating.
    pub fn with_capacity(mod_id: ModId, capacity: usize) -> (r: Self)
        ensures
            r.mod_id_spec() == mod_id,
            r.counter_spec() == 0,
            r.kvs() == Seq::<(Id, T)>::empty(),
            r.merged() == Set::<ModId>::empty(),
            r.wf(),
    {
        let r = Store {
            mod_id,
            counter: 0,
            data: Vec::with_capacity(capacity),
            merged_mods: Vec::new(),
        };
        proof {
            assert(r.kvs() =~= Seq::<(Id, T)>::empty());
            assert(r.merged() =~= Set::<ModId>::empty());
        }
        r
    }

    /// The value of the counter the next fresh identifier is built from.
    pub fn counter(&self) -> (r: u32)
        ensures
            r == self.counter_spec(),
    {
        self.counter
    }

    /// The index of the entry carrying the raw identifier `k`, if any.
    fn find(&self, k: Id) -> (r: Option<usize>)
        ensures
            match r {
                Some(i) => i < self.kvs().len() && self.kvs()[i as int].0 == k,
                None => !self.contains_id(k),
            },
    {
        let n = self.data.len();
        let mut i: usize = 0;
        while i < n
            invariant
                i <= n,
                n == self.kvs().len(),
                forall|j: int| 0 <= j < i ==> (#[trigger] self.kvs()[j]).0 != k,
            decreases n - i,
        {
            if self.data[i].0.raw() == k {
                return Some(i);
            }
            i = i + 1;
        }
        None
    }

    /// Generates a globally unique identifier for this kind of store.
    pub fn fresh_id(&mut self) -> (r: I)
        requires
            old(self).wf(),
            old(self).counter_spec() < u32::MAX,
        ensures
            r.id_spec() == encode_id(old(self).mod_id_spec(), old(self).counter_spec()),
            !old(self).contains_id(r.id_spec()),
            final(self).counter_spec() == old(self).counter_spec() + 1,
            final(self).mod_id_spec() == old(self).mod_id_spec(),
            final(self).kvs() == old(self).kvs(),
            final(self).merged() == old(self).merged(),
            final(self).wf(),
    {
        let c = self.counter;
        let m = self.mod_id;
        assert((c as u64) + ((m as u64) << 32) <= u64::MAX
            && (c as u64) + ((m as u64) << 32) == ((m as u64) << 32) | (c as u64))
            by (bit_vector);
        let id: u64 = (c as u64) + ((m as u64) << 32);
        self.counter = c + 1;
        proof {
            lemma_id_decode(m, c);
            assert forall|i: int| 0 <= i < old(self).kvs().len()
                implies (#[trigger] old(self).kvs()[i]).0 != id by {
                let k = old(self).kvs()[i].0;
                if id_module(k) == m {
                    assert(id_counter(k) < c);
                    assert(id_counter(id) == c);
                }
            }
        }
        I::new(id)
    }

    /// Inserts an item under the given identifier, replacing any item already
    /// stored under it.
    pub fn insert(&mut self, id: I, item: T)
        requires
            old(self).wf(),
            id_module(id.id_spec()) == old(self).mod_id_spec()
                ==> id_counter(id.id_spec()) < old(self).counter_spec(),
            id_module(id.id_spec()) != old(self).mod_id_spec()
                ==> old(self).merged().contains(id_module(id.id_spec())),
        ensures
            final(self).wf(),
            final(self).mod_id_spec() == old(self).mod_id_spec(),
            final(self).counter_spec() == old(self).counter_spec(),
            final(self).merged() == old(self).merged(),
            final(self).kvs() == if old(self).contains_id(id.id_spec()) {
                old(self).kvs().update(
                    key_index(old(self).kvs(), id.id_spec()),
                    (id.id_spec(), item),
                )
            } else {
                old(self).kvs().push((id.id_spec(), item))
            },
            forall|j: Id| final(self).contains_id(j)
                <==> old(self).contains_id(j) || j == id.id_spec(),
            final(self).spec_get(id.id_spec()) == item,
            forall|j: Id| j != id.id_spec() && old(self).contains_id(j)
                ==> final(self).spec_get(j) == old(self).spec_get(j),
    {
        let ghost s = self.kvs();
        let k = id.raw();
        match self.find(k) {
            Some(i) => {
                proof {
                    lemma_key_index(s, i as int);
                }
                self.data.remove(i);
                self.data.insert(i, (id, item));
                proof {
                    let s2 = self.kvs();
                    assert(s2 =~= s.update(i as int, (k, item)));
                    assert forall|j: Id| #[trigger] self.contains_id(j)
                            implies s.len() == s2.len() by {}
                    self.lemma_insert_post(s, i as int, k, item);
                }
            },
            None => {
                self.data.push((id, item));
                proof {
                    let s2 = self.kvs();
                    assert(s2 =~= s.push((k, item)));
                    self.lemma_push_post(s, k, item);
                }
            },
        }
    }

    /// After an in-place update at the key's own index, lookups behave as an
    /// insertion into the map of entries.
    proof fn lemma_insert_post(&self, s: Seq<(Id, T)>, i: int, k: Id, item: T)
        requires
            distinct_keys(s),
            0 <= i < s.len(),
            s[i].0 == k,
            self.kvs() == s.update(i, (k, item)),
        ensures
            distinct_keys(self.kvs()),
            forall|j: Id| self.contains_id(j)
                <==> (exists|m: int| 0 <= m < s.len() && (#[trigger] s[m]).0 == j),
            self.spec_get(k) == item,
            forall|j: Id| j != k && (exists|m: int| 0 <= m < s.len() && (#[trigger] s[m]).0 == j)
                ==> self.spec_get(j) == s[key_index(s, j)].1,
    {
        let s2 = self.kvs();
        assert(forall|m: int| 0 <= m < s.len() && m != i
            ==> #[trigger] s2[m] == s[m]);
        assert(distinct_keys(s2)) by {
            assert forall|a: int, b: int| 0 <= a < b < s2.len()
                implies (#[trigger] s2[a]).0 != (#[trigger] s2[b]).0 by {
                assert(s2[a].0 == s[a].0 && s2[b].0 == s[b].0);
            }
        }
        assert forall|j: Id| self.contains_id(j)
            implies (exists|m: int| 0 <= m < s.len() && (#[trigger] s[m]).0 == j) by {
            let m = choose|m: int| 0 <= m < s2.len() && (#[trigger] s2[m]).0 == j;
            assert(s[m].0 == j);
        }
        assert forall|j: Id| (exists|m: int| 0 <= m < s.len() && (#[trigger] s[m]).0 == j)
            implies self.contains_id(j) by {
            let m = choose|m: int| 0 <= m < s.len() && (#[trigger] s[m]).0 == j;
            assert((#[trigger] s2[m]).0 == j);
        }
        assert(self.spec_get(k) == item) by {
            assert(s2[i].0 == k);
            lemma_key_index(s2, i);
        }
        assert forall|j: Id|
            j != k && (exists|m: int| 0 <= m < s.len() && (#[trigger] s[m]).0 == j)
            implies self.spec_get(j) == s[key_index(s, j)].1 by {
            let m = choose|m: int| 0 <= m < s.len() && (#[trigger] s[m]).0 == j;
            lemma_key_index(s, m);
            assert(s2[m].0 == j);
            lemma_key_index(s2, m);
        }
    }

    /// After pushing an entry with a fresh key, lookups behave as an
    /// insertion into the map of entries.
    proof fn lemma_push_post(&self, s: Seq<(Id, T)>, k: Id, item: T)
        requires
            distinct_keys(s),
            !(exists|m: int| 0 <= m < s.len() && (#[trigger] s[m]).0 == k),
            self.kvs() == s.push((k, item)),
        ensures
            distinct_keys(self.kvs()),
            forall|j: Id| self.contains_id(j)
                <==> (exists|m: int| 0 <= m < s.len() && (#[trigger] s[m]).0 == j) || j == k,
            self.spec_get(k) == item,
            forall|j: Id| j != k && (exists|m: int| 0 <= m < s.len() && (#[trigger] s[m]).0 == j)
                ==> self.spec_get(j) == s[key_index(s, j)].1,
    {
        let s2 = self.kvs();
        assert(forall|m: int| 0 <= m < s.len() ==> #[trigger] s2[m] == s[m]);
        assert(s2[s.len() as int] == (k, item));
        assert(distinct_keys(s2)) by {
            assert forall|a: int, b: int| 0 <= a < b < s2.len()
                implies (#[trigger] s2[a]).0 != (#[trigger] s2[b]).0 by {
                if b < s.len() {
                    assert(s2[a].0 == s[a].0 && s2[b].0 == s[b].0);
                } else {
                    assert(s2[b].0 == k && s2[a].0 == s[a].0);
                }
            }
        }
        assert forall|j: Id| self.contains_id(j)
            implies (exists|m: int| 0 <= m < s.len() && (#[trigger] s[m]).0 == j) || j == k by {
            let m = choose|m: int| 0 <= m < s2.len() && (#[trigger] s2[m]).0 == j;
            if m < s.len() {
                assert(s[m].0 == j);
            }
        }
        assert forall|j: Id|
            (exists|m: int| 0 <= m < s.len() && (#[trigger] s[m]).0 == j) || j == k
            implies self.contains_id(j) by {
            if j == k {
                assert((#[trigger] s2[s.len() as int]).0 == k);
            } else {
                let m = choose|m: int| 0 <= m < s.len() && (#[trigger] s[m]).0 == j;
                assert((#[trigger] s2[m]).0 == j);
            }
        }
        assert(self.spec_get(k) == item) by {
            lemma_key_index(s2, s.len() as int);
        }
        assert forall|j: Id|
            j != k && (exists|m: int| 0 <= m < s.len() && (#[trigger] s[m]).0 == j)
            implies self.spec_get(j) == s[key_index(s, j)].1 by {
            let m = choose|m: int| 0 <= m < s.len() && (#[trigger] s[m]).0 == j;
            lemma_key_index(s, m);
            assert(s2[m].0 == j);
            lemma_key_index(s2, m);
        }
    }

    /// Adds an item to the store and returns the globally unique identifier
    /// created for it.
    pub fn add(&mut self, item: T) -> (id: I)
        requires
            old(self).wf(),
            old(self).counter_spec() < u32::MAX,
        ensures
            final(self).wf(),
            id.id_spec() == encode_id(old(self).mod_id_spec(), old(self).counter_spec()),
            !old(self).contains_id(id.id_spec()),
            final(self).kvs() == old(self).kvs().push((id.id_spec(), item)),
            final(self).mod_id_spec() == old(self).mod_id_spec(),
            final(self).counter_spec() == old(self).counter_spec() + 1,
            final(self).merged() == old(self).merged(),
            forall|j: Id| final(self).contains_id(j)
                <==> old(self).contains_id(j) || j == id.id_spec(),
            final(self).spec_get(id.id_spec()) == item,
            forall|j: Id| j != id.id_spec() && old(self).contains_id(j)
                ==> final(self).spec_get(j) == old(self).spec_get(j),
    {
        let id = self.fresh_id();
        proof {
            lemma_id_decode(self.mod_id_spec(), (self.counter_spec() - 1) as u32);
        }
        self.insert(id, item);
        id
    }

    /// Tries to retrieve an item from its identifier.
    ///
    /// This will never return `None` if the identifier has been generated by
    /// this store and the entry was never dropped by `transmute`.
    pub fn get(&self, id: I) -> (r: Option<&T>)
        requires
            self.wf(),
        ensures
            match r {
                Some(t) => self.contains_id(id.id_spec()) && *t == self.spec_get(id.id_spec()),
                None => !self.contains_id(id.id_spec()),
            },
    {
        match self.find(id.raw()) {
            Some(i) => {
                proof {
                    lemma_key_index(self.kvs(), i as int);
                }
                Some(&self.data[i].1)
            },
            None => None,
        }
    }

    /// Replaces the item stored under an identifier, returning the previous
    /// item, or returns `None` and leaves the store unchanged when the
    /// identifier has no entry.
    pub fn replace(&mut self, id: I, item: T) -> (r: Option<T>)
        requires
            old(self).wf(),
        ensures
            final(self).wf(),
            final(self).mod_id_spec() == old(self).mod_id_spec(),
            final(self).counter_spec() == old(self).counter_spec(),
            final(self).merged() == old(self).merged(),
            match r {
                Some(t) => {
                    &&& old(self).contains_id(id.id_spec())
                    &&& t == old(self).spec_get(id.id_spec())
                    &&& final(self).kvs() == old(self).kvs().update(
                        key_index(old(self).kvs(), id.id_spec()),
                        (id.id_spec(), item),
                    )
                    &&& forall|j: Id| final(self).contains_id(j) <==> old(self).contains_id(j)
                    &&& final(self).spec_get(id.id_spec()) == item
                    &&& forall|j: Id| j != id.id_spec() && old(self).contains_id(j)
                        ==> final(self).spec_get(j) == old(self).spec_get(j)
                },
                None => {
                    &&& !old(self).contains_id(id.id_spec())
                    &&& *final(self) == *old(self)
                },
            },
    {
        let ghost s = self.kvs();
        let k = id.raw();
        match self.find(k) {
            Some(i) => {
                proof {
                    lemma_key_index(s, i as int);
                }
                let pair = self.data.remove(i);
                self.data.insert(i, (id, item));
                proof {
                    let s2 = self.kvs();
                    assert(s2 =~= s.update(i as int, (k, item)));
                    self.lemma_insert_post(s, i as int, k, item);
                }
                Some(pair.1)
            },
            None => None,
        }
    }

    /// Extends this store with the key-value pairs of another one, which must
    /// come from a different module that was not merged in before. On an
    /// identifier present in both, the other store's item wins.
    pub fn extend(&mut self, other: Self)
        requires
            old(self).wf(),
            other.wf(),
            other.mod_id_spec() != old(self).mod_id_spec(),
            !old(self).merged().contains(other.mod_id_spec()),
            !other.merged().contains(old(self).mod_id_spec()),
        ensures
            final(self).wf(),
            final(self).mod_id_spec() == old(self).mod_id_spec(),
            final(self).counter_spec() == old(self).counter_spec(),
            final(self).merged() == old(self).merged().union(other.merged())
                .insert(other.mod_id_spec()),
            forall|k: Id| final(self).contains_id(k)
                <==> old(self).contains_id(k) || other.contains_id(k),
            forall|k: Id| #[trigger] other.contains_id(k)
                ==> final(self).spec_get(k) == other.spec_get(k),
            forall|k: Id| old(self).contains_id(k) && !other.contains_id(k)
                ==> final(self).spec_get(k) == old(self).spec_get(k),
    {
        broadcast use vstd::seq_lib::group_seq_properties;

        let ghost other0 = other;
        let mut other = other;
        let ghost old_self = *old(self);
        let ghost okvs = other.kvs();
        let ghost o_mod = other.mod_id_spec();
        let ghost o_merged = other.merged();
        self.merged_mods.push(other.mod_id);
        self.merged_mods.append(&mut other.merged_mods);
        proof {
            assert(self.merged() =~= old_self.merged().union(o_merged).insert(o_mod));
            assert(self.wf());
        }
        let ghost target = *self;
        while other.data.len() > 0
            invariant
                self.wf(),
                self.mod_id_spec() == old_self.mod_id_spec(),
                self.counter_spec() == old_self.counter_spec(),
                self.merged() == target.merged(),
                other.data.len() <= okvs.len(),
                other.kvs() == okvs.take(other.data.len() as int),
                distinct_keys(okvs),
                forall|i: int| 0 <= i < okvs.len() ==> {
                    let m = id_module((#[trigger] okvs[i]).0);
                    m == o_mod || o_merged.contains(m)
                },
                o_mod != old_self.mod_id_spec(),
                !o_merged.contains(old_self.mod_id_spec()),
                self.merged().contains(o_mod),
                forall|m: ModId| o_merged.contains(m) ==> self.merged().contains(m),
                forall|k: Id| #[trigger] self.contains_id(k) <==> old_self.contains_id(k)
                    || contains_key_from(okvs, other.data.len() as int, k),
                forall|i: int| other.data.len() <= i < okvs.len()
                    ==> self.spec_get((#[trigger] okvs[i]).0) == okvs[i].1,
                forall|k: Id| old_self.contains_id(k)
                    && !contains_key_from(okvs, other.data.len() as int, k)
                    ==> #[trigger] self.spec_get(k) == old_self.spec_get(k),
            decreases other.data.len(),
        {
            let ghost m0 = other.data.len() as int;
            let ghost d0 = other.data@;
            proof {
                assert(other.kvs()[m0 - 1] == okvs.take(m0)[m0 - 1]);
                assert(other.kvs()[m0 - 1] == (d0[m0 - 1].0.id_spec(), d0[m0 - 1].1));
            }
            let pair = other.data.pop().unwrap();
            proof {
                assert(pair == d0[m0 - 1]);
                assert((pair.0.id_spec(), pair.1) == okvs[m0 - 1]);
                assert forall|i: int| 0 <= i < other.kvs().len()
                    implies (#[trigger] other.kvs()[i]) == okvs.take(m0 - 1)[i] by {
                    assert(other.data@[i] == d0[i]);
                    assert(okvs.take(m0)[i] == okvs[i]);
                }
                assert(other.kvs() =~= okvs.take(m0 - 1));
                let km = id_module(okvs[m0 - 1].0);
                assert(km == o_mod || o_merged.contains(km));
            }
            let ghost before = *self;
            self.insert(pair.0, pair.1);
            proof {
                let k = okvs[m0 - 1].0;
                lemma_contains_key_step(okvs, m0, k);
                assert(contains_key_from(okvs, m0 - 1, k));
                assert(self.spec_get(k) == okvs[m0 - 1].1);
                assert forall|i: int| other.data.len() <= i < okvs.len()
                    implies self.spec_get((#[trigger] okvs[i]).0) == okvs[i].1 by {
                    if i >= m0 {
                        assert(okvs[i].0 != k);
                        let kx = okvs[i].0;
                        assert(contains_key_from(okvs, m0, kx));
                        assert(before.contains_id(kx));
                        assert(before.spec_get(kx) == okvs[i].1);
                        assert(self.spec_get(kx) == before.spec_get(kx));
                    } else {
                        assert(okvs[i].0 == k);
                    }
                }
                assert forall|k2: Id| old_self.contains_id(k2)
                    && !contains_key_from(okvs, m0 - 1, k2)
                    implies #[trigger] self.spec_get(k2) == old_self.spec_get(k2) by {
                    lemma_contains_key_step(okvs, m0, k2);
                    assert(k2 != k);
                    assert(!contains_key_from(okvs, m0, k2));
                    assert(before.spec_get(k2) == old_self.spec_get(k2));
                    assert(before.contains_id(k2));
                    assert(self.spec_get(k2) == before.spec_get(k2));
                }
                assert forall|k2: Id| #[trigger] self.contains_id(k2)
                    implies old_self.contains_id(k2)
                        || contains_key_from(okvs, m0 - 1, k2) by {
                    lemma_contains_key_step(okvs, m0, k2);
                    if k2 != k {
                        assert(before.contains_id(k2));
                    }
                }
                assert forall|k2: Id|
                    old_self.contains_id(k2) || contains_key_from(okvs, m0 - 1, k2)
                    implies #[trigger] self.contains_id(k2) by {
                    lemma_contains_key_step(okvs, m0, k2);
                    if k2 != k {
                        if old_self.contains_id(k2) || contains_key_from(okvs, m0, k2) {
                            assert(before.contains_id(k2));
                        }
                    }
                }
            }
        }
        proof {
            assert(other0.kvs() == okvs);
            assert forall|k: Id| #[trigger] other0.contains_id(k)
                implies contains_key_from(okvs, 0, k) by {
                let i = choose|i: int| 0 <= i < other0.kvs().len()
                    && (#[trigger] other0.kvs()[i]).0 == k;
                assert(0 <= i < okvs.len() && (#[trigger] okvs[i]).0 == k);
            }
            assert forall|k: Id| contains_key_from(okvs, 0, k)
                implies other0.contains_id(k) by {
                let i = choose|i: int| 0 <= i < okvs.len() && (#[trigger] okvs[i]).0 == k;
                assert((#[trigger] other0.kvs()[i]).0 == k);
            }
            assert forall|k: Id| #[trigger] other0.contains_id(k)
                implies self.contains_id(k) && self.spec_get(k) == other0.spec_get(k) by {
                let i = key_index(okvs, k);
                assert(0 <= i < okvs.len() && (#[trigger] okvs[i]).0 == k);
                assert(self.spec_get(okvs[i].0) == okvs[i].1);
                assert(other0.spec_get(k) == okvs[i].1);
            }
        }
    }

    /// The pair `p` is the image under `fun` of an entry of `s` at index `lo`
    /// or beyond, carrying the same identifier.
    pub open spec fn maps_to_entry<Q, F: Fn(T) -> Option<Q>>(
        fun: F,
        s: Seq<(Id, T)>,
        lo: int,
        p: (Id, Q),
    ) -> bool {
        exists|i: int| lo <= i < s.len() && (#[trigger] s[i]).0 == p.0
            && call_ensures(fun, (s[i].1,), Some(p.1))
    }

    /// The entry `p` either survives into `nk` under the same identifier or
    /// was dropped by `fun`.
    pub open spec fn kept_or_dropped<Q, F: Fn(T) -> Option<Q>>(
        fun: F,
        nk: Seq<(Id, Q)>,
        p: (Id, T),
    ) -> bool {
        (exists|j: int| 0 <= j < nk.len() && (#[trigger] nk[j]).0 == p.0
            && call_ensures(fun, (p.1,), Some(nk[j].1)))
        || call_ensures(fun, (p.1,), None::<Q>)
    }

    /// Transforms a `Store<I, T>` into a `Store<I, Q>` by applying a function
    /// to every item. An item for which the function returns `None` is
    /// dropped; every surviving item keeps its identifier. The counter is
    /// kept, so identifiers created afterwards never collide with kept ones.
    pub fn transmute<Q, F: Fn(T) -> Option<Q>>(self, fun: F) -> (r: Store<I, Q>)
        requires
            self.wf(),
            forall|i: int| 0 <= i < self.kvs().len()
                ==> call_requires(fun, ((#[trigger] self.kvs()[i]).1,)),
        ensures
            r.wf(),
            r.mod_id_spec() == self.mod_id_spec(),
            r.counter_spec() == self.counter_spec(),
            r.merged() == self.merged(),
            forall|k: Id| #[trigger] r.contains_id(k) ==> self.contains_id(k),
            forall|k: Id| #[trigger] r.contains_id(k)
                ==> call_ensures(fun, (self.spec_get(k),), Some(r.spec_get(k))),
            forall|k: Id| self.contains_id(k) && !r.contains_id(k)
                ==> call_ensures(fun, (#[trigger] self.spec_get(k),), None::<Q>),
    {
        let ghost okvs = self.kvs();
        let ghost s_mod = self.mod_id_spec();
        let ghost s_cnt = self.counter_spec();
        let ghost s_merged = self.merged();
        let mut src = self;
        let mut data: Vec<(I, Q)> = Vec::new();
        while src.data.len() > 0
            invariant
                src.data.len() <= okvs.len(),
                src.mod_id == s_mod,
                src.counter == s_cnt,
                src.merged_mods@.to_set() == s_merged,
                src.kvs() == okvs.take(src.data.len() as int),
                distinct_keys(okvs),
                forall|i: int| 0 <= i < okvs.len() ==> {
                    let k = (#[trigger] okvs[i]).0;
                    if id_module(k) == s_mod {
                        id_counter(k) < s_cnt
                    } else {
                        s_merged.contains(id_module(k))
                    }
                },
                forall|i: int| 0 <= i < okvs.len()
                    ==> call_requires(fun, ((#[trigger] okvs[i]).1,)),
                forall|j: int| 0 <= j < entries_of(data@).len()
                    ==> Self::maps_to_entry(fun, okvs, src.data.len() as int,
                        #[trigger] entries_of(data@)[j]),
                forall|i: int| src.data.len() <= i < okvs.len()
                    ==> Self::kept_or_dropped(fun, entries_of(data@), #[trigger] okvs[i]),
                distinct_keys(entries_of(data@)),
            decreases src.data.len(),
        {
            let ghost m0 = src.data.len() as int;
            let ghost nkvs0 = entries_of(data@);
            let ghost d0 = src.data@;
            proof {
                assert(src.kvs()[m0 - 1] == okvs.take(m0)[m0 - 1]);
                assert(src.kvs()[m0 - 1] == (d0[m0 - 1].0.id_spec(), d0[m0 - 1].1));
            }
            let pair = src.data.pop().unwrap();
            proof {
                assert(pair == d0[m0 - 1]);
                assert((pair.0.id_spec(), pair.1) == okvs[m0 - 1]);
                assert forall|i: int| 0 <= i < src.kvs().len()
                    implies (#[trigger] src.kvs()[i]) == okvs.take(m0 - 1)[i] by {
                    assert(src.data@[i] == d0[i]);
                    assert(okvs.take(m0)[i] == okvs[i]);
                }
                assert(src.kvs() =~= okvs.take(m0 - 1));
            }
            match fun(pair.1) {
                Some(q) => {
                    let ghost key = pair.0.id_spec();
                    proof {
                        assert forall|j: int| 0 <= j < nkvs0.len()
                            implies (#[trigger] nkvs0[j]).0 != key by {
                            let i = choose|i: int| m0 <= i < okvs.len()
                                && (#[trigger] okvs[i]).0 == nkvs0[j].0
                                && call_ensures(fun, (okvs[i].1,), Some(nkvs0[j].1));
                            assert(okvs[i].0 != okvs[m0 - 1].0);
                        }
                    }
                    data.push((pair.0, q));
                    proof {
                        let nkvs1 = entries_of(data@);
                        assert(nkvs1 =~= nkvs0.push((key, q)));
                        assert(call_ensures(fun, (okvs[m0 - 1].1,), Some(q)));
                        assert forall|j: int| 0 <= j < nkvs1.len()
                            implies Self::maps_to_entry(fun, okvs, m0 - 1,
                                #[trigger] nkvs1[j]) by {
                            if j < nkvs0.len() {
                                assert(nkvs1[j] == nkvs0[j]);
                                let i = choose|i: int| m0 <= i < okvs.len()
                                    && (#[trigger] okvs[i]).0 == nkvs0[j].0
                                    && call_ensures(fun, (okvs[i].1,), Some(nkvs0[j].1));
                                assert((#[trigger] okvs[i]).0 == nkvs1[j].0
                                    && call_ensures(fun, (okvs[i].1,), Some(nkvs1[j].1)));
                            } else {
                                assert(nkvs1[j] == (key, q));
                                assert((#[trigger] okvs[m0 - 1]).0 == nkvs1[j].0
                                    && call_ensures(fun, (okvs[m0 - 1].1,),
                                        Some(nkvs1[j].1)));
                            }
                        }
                        assert forall|i: int| m0 - 1 <= i < okvs.len()
                            implies Self::kept_or_dropped(fun, nkvs1,
                                #[trigger] okvs[i]) by {
                            if i == m0 - 1 {
                                assert((#[trigger] nkvs1[nkvs0.len() as int]).0 == okvs[i].0
                                    && call_ensures(fun, (okvs[i].1,),
                                        Some(nkvs1[nkvs0.len() as int].1)));
                            } else {
                                assert(Self::kept_or_dropped(fun, nkvs0, okvs[i]));
                                if !call_ensures(fun, (okvs[i].1,), None::<Q>) {
                                    let j = choose|j: int| 0 <= j < nkvs0.len()
                                        && (#[trigger] nkvs0[j]).0 == okvs[i].0
                                        && call_ensures(fun, (okvs[i].1,), Some(nkvs0[j].1));
                                    assert((#[trigger] nkvs1[j]).0 == okvs[i].0
                                        && call_ensures(fun, (okvs[i].1,), Some(nkvs1[j].1)));
                                }
                            }
                        }
                    }
                },
                None => {
                    proof {
                        let ghost nkvs1 = entries_of(data@);
                        assert forall|i: int| m0 - 1 <= i < okvs.len()
                            implies Self::kept_or_dropped(fun, nkvs1,
                                #[trigger] okvs[i]) by {
                            if i == m0 - 1 {
                                assert(call_ensures(fun, (okvs[i].1,), None::<Q>));
                            }
                        }
                    }
                },
            }
        }
        let r = Store {
            mod_id: src.mod_id,
            counter: src.counter,
            data,
            merged_mods: src.merged_mods,
        };
        proof {
            assert(okvs.take(0) =~= Seq::<(Id, T)>::empty());
            let nkvs = r.kvs();
            assert(nkvs =~= entries_of(r.data@));
            assert forall|k: Id| #[trigger] r.contains_id(k)
                implies self.contains_id(k)
                    && call_ensures(fun, (self.spec_get(k),), Some(r.spec_get(k))) by {
                let j = choose|j: int| 0 <= j < nkvs.len() && (#[trigger] nkvs[j]).0 == k;
                lemma_key_index(nkvs, j);
                assert(Self::maps_to_entry(fun, okvs, 0, nkvs[j]));
                let i = choose|i: int| 0 <= i < okvs.len() && (#[trigger] okvs[i]).0 == nkvs[j].0
                    && call_ensures(fun, (okvs[i].1,), Some(nkvs[j].1));
                lemma_key_index(okvs, i);
            }
            assert forall|k: Id| self.contains_id(k) && !r.contains_id(k)
                implies call_ensures(fun, (#[trigger] self.spec_get(k),), None::<Q>) by {
                let i = choose|i: int| 0 <= i < okvs.len() && (#[trigger] okvs[i]).0 == k;
                lemma_key_index(okvs, i);
                assert(Self::kept_or_dropped(fun, nkvs, okvs[i]));
                if !(call_ensures(fun, (okvs[i].1,), None::<Q>)) {
                    let j = choose|j: int| 0 <= j < nkvs.len()
                        && (#[trigger] nkvs[j]).0 == okvs[i].0
                        && call_ensures(fun, (okvs[i].1,), Some(nkvs[j].1));
                    assert(r.contains_id(k));
                }
            }
            assert forall|i: int| 0 <= i < r.kvs().len() implies {
                let k = (#[trigger] r.kvs()[i]).0;
                if id_module(k) == r.mod_id_spec() {
                    id_counter(k) < r.counter_spec()
                } else {
                    r.merged().contains(id_module(k))
                }
            } by {
                assert(Self::maps_to_entry(fun, okvs, 0, nkvs[i]));
                let jj = choose|jj: int| 0 <= jj < okvs.len()
                    && (#[trigger] okvs[jj]).0 == nkvs[i].0
                    && call_ensures(fun, (okvs[jj].1,), Some(nkvs[i].1));
                assert(r.kvs()[i].0 == okvs[jj].0);
            }
        }
        r
    }

    /// Iterates over the (id, item) pairs: a borrow of the entries in
    /// insertion order.
    pub fn iter(&self) -> (r: &Vec<(I, T)>)
        ensures
            r@.len() == self.kvs().len(),
            forall|i: int| 0 <= i < r@.len()
                ==> ((#[trigger] r@[i]).0.id_spec(), r@[i].1) == self.kvs()[i],
    {
        &self.data
    }
}

/// Identifiers built by one store under different counters differ, so no two
/// calls to `fresh_id` on a store return equal identifiers: each call uses
/// the store's counter and leaves it strictly larger.
pub proof fn lemma_fresh_ids_distinct(mod_id: ModId, c1: u32, c2: u32)
    requires
        c1 != c2,
    ensures
        encode_id(mod_id, c1) != encode_id(mod_id, c2),
{
    lemma_id_decode(mod_id, c1);
    lemma_id_decode(mod_id, c2);
}

/// Identifiers built by stores with different module ids never collide,
/// whatever their counters: the module id sits in the high half.
pub proof fn lemma_module_ids_distinct(m1: ModId, c1: u32, m2: ModId, c2: u32)
    requires
        m1 != m2,
    ensures
        encode_id(m1, c1) != encode_id(m2, c2),
{
    lemma_id_decode(m1, c1);
    lemma_id_decode(m2, c2);
}

/// Two well-formed stores whose module ids — their own and all the merged
/// ones — do not overlap hold no identifier in common. `extend` on such
/// stores therefore unions their entries without overwriting any of them.
pub proof fn lemma_disjoint_stores<I: Identifier, T>(a: &Store<I, T>, b: &Store<I, T>)
    requires
        a.wf(),
        b.wf(),
        a.mod_id_spec() != b.mod_id_spec(),
        !a.merged().contains(b.mod_id_spec()),
        !b.merged().contains(a.mod_id_spec()),
        a.merged().disjoint(b.merged()),
    ensures
        forall|k: Id| !(a.contains_id(k) && b.contains_id(k)),
{
    assert forall|k: Id| !(a.contains_id(k) && b.contains_id(k)) by {
        if a.contains_id(k) && b.contains_id(k) {
            let i = choose|i: int| 0 <= i < a.kvs().len() && (#[trigger] a.kvs()[i]).0 == k;
            let j = choose|j: int| 0 <= j < b.kvs().len() && (#[trigger] b.kvs()[j]).0 == k;
            let m = id_module(k);
            assert(m == a.mod_id_spec() || a.merged().contains(m));
            assert(m == b.mod_id_spec() || b.merged().contains(m));
        }
    }
}

/// In a well-formed store — in particular one produced by `transmute`, which
/// keeps the module id and the counter — an identifier built from a counter
/// at or above the store's own never collides with a held entry, so further
/// `fresh_id` calls stay collision-free.
pub proof fn lemma_fresh_ids_free<I: Identifier, T>(s: &Store<I, T>, c: u32)
    requires
        s.wf(),
        c >= s.counter_spec(),
    ensures
        !s.contains_id(encode_id(s.mod_id_spec(), c)),
{
    lemma_id_decode(s.mod_id_spec(), c);
    let k = encode_id(s.mod_id_spec(), c);
    if s.contains_id(k) {
        let i = choose|i: int| 0 <= i < s.kvs().len() && (#[trigger] s.kvs()[i]).0 == k;
        assert(id_module(s.kvs()[i].0) == s.mod_id_spec());
        assert(id_counter(s.kvs()[i].0) < s.counter_spec());
    }
}

} // verus!
