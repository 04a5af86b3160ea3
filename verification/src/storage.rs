//! The progress store: membership sets and per-user counters with the
//! atomic primitives the completion engines build on.
//!
//! This is the reference model of the durable backend: every operation is
//! described exactly, over set and counter views, and the engines and the
//! laws about them are verified against these contracts. A deployment binds
//! the same operations to a durable backend outside the library.

use vstd::prelude::*;
use crate::text::str_eq;

verus! {

/// One membership set, under its stable key.
struct StoredSet {
    name: String,
    members: Vec<i64>,
}

/// One field-to-counter table, under its stable key.
struct StoredHash {
    name: String,
    fields: Vec<(i64, i64)>,
}

#[derive(Debug, PartialEq, Eq)]
pub enum StorageError {
    /// An increment would leave the counter range.
    CounterOverflow,
}

/// The store: named membership sets of user identities and named counter
/// tables. Sets and counters are created lazily: an absent set is empty, an
/// absent counter is zero.
pub struct Storage {
    sets: Vec<StoredSet>,
    hashes: Vec<StoredHash>,
}

impl Storage {
    /// Well-formed: keys are unique and member lists carry no duplicates.
    pub closed spec fn wf(self) -> bool {
        &&& forall|i: int, j: int|
            #![trigger self.sets@[i], self.sets@[j]]
            0 <= i < j < self.sets@.len() ==> self.sets@[i].name@ != self.sets@[j].name@
        &&& forall|i: int|
            0 <= i < self.sets@.len() ==> (#[trigger] self.sets@[i]).members@.no_duplicates()
        &&& forall|i: int, j: int|
            #![trigger self.hashes@[i], self.hashes@[j]]
            0 <= i < j < self.hashes@.len() ==> self.hashes@[i].name@ != self.hashes@[j].name@
        &&& forall|i: int, k1: int, k2: int|
            #![trigger self.hashes@[i].fields@[k1], self.hashes@[i].fields@[k2]]
            0 <= i < self.hashes@.len() && 0 <= k1 < k2 < self.hashes@[i].fields@.len()
                ==> self.hashes@[i].fields@[k1].0 != self.hashes@[i].fields@[k2].0
    }

    pub closed spec fn has_set(self, name: Seq<char>) -> bool {
        exists|i: int| 0 <= i < self.sets@.len() && (#[trigger] self.sets@[i]).name@ == name
    }

    pub closed spec fn set_idx(self, name: Seq<char>) -> int {
        choose|i: int| 0 <= i < self.sets@.len() && (#[trigger] self.sets@[i]).name@ == name
    }

    /// The members of the named set; empty when the set was never written.
    pub closed spec fn set_members(self, name: Seq<char>) -> Set<i64> {
        if self.has_set(name) {
            self.sets@[self.set_idx(name)].members@.to_set()
        } else {
            Set::empty()
        }
    }

    /// The cardinality of the named set.
    pub open spec fn set_card(self, name: Seq<char>) -> nat {
        self.set_members(name).len()
    }

    pub closed spec fn has_hash(self, name: Seq<char>) -> bool {
        exists|i: int| 0 <= i < self.hashes@.len() && (#[trigger] self.hashes@[i]).name@ == name
    }

    pub closed spec fn hash_idx(self, name: Seq<char>) -> int {
        choose|i: int| 0 <= i < self.hashes@.len() && (#[trigger] self.hashes@[i]).name@ == name
    }

    pub closed spec fn hash_has_field(self, name: Seq<char>, field: i64) -> bool {
        &&& self.has_hash(name)
        &&& exists|k: int|
            0 <= k < self.hashes@[self.hash_idx(name)].fields@.len() && (#[trigger] self.hashes@[
                self.hash_idx(name)
            ].fields@[k]).0 == field
    }

    pub closed spec fn hash_field_idx(self, name: Seq<char>, field: i64) -> int {
        choose|k: int|
            0 <= k < self.hashes@[self.hash_idx(name)].fields@.len() && (#[trigger] self.hashes@[
                self.hash_idx(name)
            ].fields@[k]).0 == field
    }

    /// The counter under `name`/`field`; 0 when never written.
    pub closed spec fn hash_val(self, name: Seq<char>, field: i64) -> i64 {
        if self.hash_has_field(name, field) {
            self.hashes@[self.hash_idx(name)].fields@[self.hash_field_idx(name, field)].1
        } else {
            0
        }
    }

    /// With unique keys, any index bearing `name` is the looked-up one.
    proof fn lemma_set_idx_is(self, name: Seq<char>, i: int)
        requires
            self.wf(),
            0 <= i < self.sets@.len(),
            self.sets@[i].name@ == name,
        ensures
            self.has_set(name),
            self.set_idx(name) == i,
            self.set_members(name) == self.sets@[i].members@.to_set(),
    {
        assert(self.has_set(name));
        let j = self.set_idx(name);
        assert(0 <= j < self.sets@.len() && self.sets@[j].name@ == name);
        if i < j {
            assert(self.sets@[i].name@ != self.sets@[j].name@);
        } else if j < i {
            assert(self.sets@[j].name@ != self.sets@[i].name@);
        }
    }

    proof fn lemma_hash_idx_is(self, name: Seq<char>, i: int)
        requires
            self.wf(),
            0 <= i < self.hashes@.len(),
            self.hashes@[i].name@ == name,
        ensures
            self.has_hash(name),
            self.hash_idx(name) == i,
    {
        assert(self.has_hash(name));
        let j = self.hash_idx(name);
        assert(0 <= j < self.hashes@.len() && self.hashes@[j].name@ == name);
        if i < j {
            assert(self.hashes@[i].name@ != self.hashes@[j].name@);
        } else if j < i {
            assert(self.hashes@[j].name@ != self.hashes@[i].name@);
        }
    }

    proof fn lemma_field_idx_is(self, name: Seq<char>, field: i64, k: int)
        requires
            self.wf(),
            self.has_hash(name),
            0 <= k < self.hashes@[self.hash_idx(name)].fields@.len(),
            self.hashes@[self.hash_idx(name)].fields@[k].0 == field,
        ensures
            self.hash_has_field(name, field),
            self.hash_field_idx(name, field) == k,
            self.hash_val(name, field) == self.hashes@[self.hash_idx(name)].fields@[k].1,
    {
        let i = self.hash_idx(name);
        assert(self.hash_has_field(name, field));
        let k2 = self.hash_field_idx(name, field);
        assert(0 <= k2 < self.hashes@[i].fields@.len() && self.hashes@[i].fields@[k2].0 == field);
        if k < k2 {
            assert(self.hashes@[i].fields@[k].0 != self.hashes@[i].fields@[k2].0);
        } else if k2 < k {
            assert(self.hashes@[i].fields@[k2].0 != self.hashes@[i].fields@[k].0);
        }
    }

    /// Stores with the same hash tables agree on every counter.
    proof fn lemma_same_hashes(pre: Self, post: Self)
        requires
            pre.wf(),
            post.wf(),
            post.hashes@ == pre.hashes@,
        ensures
            forall|n: Seq<char>, f: i64| #[trigger] post.hash_val(n, f) == pre.hash_val(n, f),
    {
        assert forall|n: Seq<char>, f: i64| #[trigger] post.hash_val(n, f) == pre.hash_val(
            n,
            f,
        ) by {
            if pre.has_hash(n) {
                let j = pre.hash_idx(n);
                assert(pre.hashes@[j].name@ == n);
                post.lemma_hash_idx_is(n, j);
                pre.lemma_hash_idx_is(n, j);
                if pre.hash_has_field(n, f) {
                    let k = pre.hash_field_idx(n, f);
                    assert(pre.hashes@[j].fields@[k].0 == f);
                    pre.lemma_field_idx_is(n, f, k);
                    post.lemma_field_idx_is(n, f, k);
                } else {
                    if post.hash_has_field(n, f) {
                        let k = post.hash_field_idx(n, f);
                        assert(post.hashes@[j].fields@[k].0 == f);
                        pre.lemma_field_idx_is(n, f, k);
                    }
                }
            } else {
                if post.has_hash(n) {
                    let j = post.hash_idx(n);
                    assert(post.hashes@[j].name@ == n);
                    assert(pre.hashes@[j].name@ == n);
                    assert(pre.has_hash(n));
                }
                assert(!post.has_hash(n));
                assert(!pre.hash_has_field(n, f) && !post.hash_has_field(n, f));
            }
        }
    }

    /// Stores with the same sets agree on every membership view.
    proof fn lemma_same_sets(pre: Self, post: Self)
        requires
            pre.wf(),
            post.wf(),
            post.sets@ == pre.sets@,
        ensures
            forall|n: Seq<char>| #[trigger] post.set_members(n) == pre.set_members(n),
    {
        assert forall|n: Seq<char>| #[trigger] post.set_members(n) == pre.set_members(n) by {
            if pre.has_set(n) {
                let j = pre.set_idx(n);
                assert(pre.sets@[j].name@ == n);
                post.lemma_set_idx_is(n, j);
                pre.lemma_set_idx_is(n, j);
            } else {
                if post.has_set(n) {
                    let j = post.set_idx(n);
                    assert(post.sets@[j].name@ == n);
                    assert(pre.sets@[j].name@ == n);
                }
                assert(!post.has_set(n));
            }
        }
    }

    /// When only the member list of the set at `i` changed, every other set's
    /// view is unchanged.
    proof fn lemma_sets_framed(pre: Self, post: Self, i: int)
        requires
            pre.wf(),
            post.wf(),
            0 <= i < pre.sets@.len(),
            post.sets@.len() == pre.sets@.len(),
            forall|j: int| 0 <= j < pre.sets@.len() && j != i ==> post.sets@[j] == pre.sets@[j],
            post.sets@[i].name@ == pre.sets@[i].name@,
        ensures
            forall|n: Seq<char>|
                n != pre.sets@[i].name@ ==> #[trigger] post.set_members(n) == pre.set_members(n),
    {
        let name = pre.sets@[i].name@;
        assert forall|n: Seq<char>| n != name implies #[trigger] post.set_members(n)
            == pre.set_members(n) by {
            if pre.has_set(n) {
                let j = pre.set_idx(n);
                assert(pre.sets@[j].name@ == n);
                assert(j != i);
                post.lemma_set_idx_is(n, j);
                pre.lemma_set_idx_is(n, j);
            } else {
                if post.has_set(n) {
                    let j = post.set_idx(n);
                    assert(post.sets@[j].name@ == n);
                    assert(j != i);
                    assert(pre.sets@[j].name@ == n);
                }
                assert(!post.has_set(n));
            }
        }
    }

    /// An empty store: every set empty, every counter zero.
    pub fn new() -> (r: Self)
        ensures
            r.wf(),
            forall|n: Seq<char>| #[trigger] r.set_members(n) == Set::<i64>::empty(),
            forall|n: Seq<char>, f: i64| #[trigger] r.hash_val(n, f) == 0,
    {
        let r = Storage { sets: Vec::new(), hashes: Vec::new() };
        proof {
            assert(forall|n: Seq<char>| !r.has_set(n));
            assert(forall|n: Seq<char>, f: i64| !r.hash_has_field(n, f));
        }
        r
    }

    fn find_set(&self, name: &str) -> (r: Option<usize>)
        ensures
            match r {
                Some(i) => i < self.sets@.len() && self.sets@[i as int].name@ == name@,
                None => !self.has_set(name@),
            },
    {
        let n = self.sets.len();
        let mut i: usize = 0;
        while i < n
            invariant
                n == self.sets@.len(),
                0 <= i <= n,
                forall|j: int| 0 <= j < i ==> (#[trigger] self.sets@[j]).name@ != name@,
            decreases n - i,
        {
            if str_eq(self.sets[i].name.as_str(), name) {
                return Some(i);
            }
            i = i + 1;
        }
        None
    }

    fn find_hash(&self, name: &str) -> (r: Option<usize>)
        ensures
            match r {
                Some(i) => i < self.hashes@.len() && self.hashes@[i as int].name@ == name@,
                None => !self.has_hash(name@),
            },
    {
        let n = self.hashes.len();
        let mut i: usize = 0;
        while i < n
            invariant
                n == self.hashes@.len(),
                0 <= i <= n,
                forall|j: int| 0 <= j < i ==> (#[trigger] self.hashes@[j]).name@ != name@,
            decreases n - i,
        {
            if str_eq(self.hashes[i].name.as_str(), name) {
                return Some(i);
            }
            i = i + 1;
        }
        None
    }

    /// Adds `value` to the named set, idempotently, and returns the set's
    /// cardinality after the add.
    pub fn set_add(&mut self, set: &str, value: i64) -> (r: usize)
        requires
            old(self).wf(),
        ensures
            final(self).wf(),
            final(self).set_members(set@) == old(self).set_members(set@).insert(value),
            forall|n: Seq<char>|
                n != set@ ==> #[trigger] final(self).set_members(n) == old(self).set_members(n),
            forall|n: Seq<char>, f: i64|
                #[trigger] final(self).hash_val(n, f) == old(self).hash_val(n, f),
            r == final(self).set_card(set@),
    {
        let found = self.find_set(set);
        match found {
            Some(i) => {
                proof {
                    self.lemma_set_idx_is(set@, i as int);
                }
                let already = contains_i64(&self.sets[i].members, value);
                if !already {
                    self.sets[i].members.push(value);
                }
                let r = self.sets[i].members.len();
                proof {
                    let pre = *old(self);
                    let post = *self;
                    let old_mem = pre.sets@[i as int].members@;
                    let new_mem = post.sets@[i as int].members@;
                    if !already {
                        assert(new_mem =~= old_mem.push(value));
                        assert(forall|j: int| 0 <= j < old_mem.len() ==> old_mem[j] != value);
                        assert(new_mem.no_duplicates());
                        lemma_push_to_set(old_mem, value);
                        assert(new_mem.to_set() =~= old_mem.to_set().insert(value));
                    } else {
                        lemma_contained_insert(old_mem, value);
                        assert(new_mem.to_set() =~= old_mem.to_set().insert(value));
                    }
                    assert(post.sets@.len() == pre.sets@.len());
                    assert(forall|j: int|
                        0 <= j < post.sets@.len() && j != i ==> post.sets@[j] == pre.sets@[j]);
                    assert(post.sets@[i as int].name@ == set@);
                    assert(post.wf());
                    post.lemma_set_idx_is(set@, i as int);
                    assert(post.set_members(set@) == pre.set_members(set@).insert(value));
                    Self::lemma_sets_framed(pre, post, i as int);
                    assert(post.hashes@ == pre.hashes@);
                    Self::lemma_same_hashes(pre, post);
                    new_mem.unique_seq_to_set();
                    assert(r == post.set_card(set@));
                }
                r
            },
            None => {
                let mut members: Vec<i64> = Vec::new();
                members.push(value);
                let entry = StoredSet { name: set.to_owned(), members };
                self.sets.push(entry);
                proof {
                    let pre = *old(self);
                    let post = *self;
                    let i = pre.sets@.len() as int;
                    assert(post.sets@ =~= pre.sets@.push(
                        StoredSet { name: post.sets@[i].name, members: post.sets@[i].members },
                    ));
                    assert(post.sets@[i].name@ == set@);
                    assert(post.sets@[i].members@ =~= seq![value]);
                    assert(post.sets@[i].members@.no_duplicates());
                    assert(forall|j: int| 0 <= j < i ==> post.sets@[j] == pre.sets@[j]);
                    assert forall|j: int| 0 <= j < i implies (#[trigger] post.sets@[j]).name@
                        != set@ by {
                        if post.sets@[j].name@ == set@ {
                            assert(pre.has_set(set@));
                        }
                    }
                    assert(post.wf());
                    post.lemma_set_idx_is(set@, i);
                    assert(post.sets@[i].members@ =~= Seq::<i64>::empty().push(value));
                    lemma_push_to_set(Seq::<i64>::empty(), value);
                    assert(Seq::<i64>::empty().to_set() =~= Set::<i64>::empty());
                    assert(post.sets@[i].members@.to_set() =~= Set::<i64>::empty().insert(value));
                    assert(!pre.has_set(set@));
                    assert(post.set_members(set@) == pre.set_members(set@).insert(value));
                    assert forall|n: Seq<char>| n != set@ implies #[trigger] post.set_members(n)
                        == pre.set_members(n) by {
                        if pre.has_set(n) {
                            let j = pre.set_idx(n);
                            assert(pre.sets@[j].name@ == n);
                            post.lemma_set_idx_is(n, j);
                            pre.lemma_set_idx_is(n, j);
                        } else {
                            assert(!post.has_set(n)) by {
                                if post.has_set(n) {
                                    let j = post.set_idx(n);
                                    assert(post.sets@[j].name@ == n);
                                    assert(j != i);
                                    assert(pre.sets@[j].name@ == n);
                                }
                            }
                        }
                    }
                    assert(post.hashes@ == pre.hashes@);
                    Self::lemma_same_hashes(pre, post);
                    post.sets@[i].members@.unique_seq_to_set();
                    assert(1 == post.set_card(set@));
                }
                1
            },
        }
    }

    /// When only the hash table at `i` changed, keeping its key, every other
    /// table's counters are unchanged.
    proof fn lemma_hashes_framed(pre: Self, post: Self, i: int)
        requires
            pre.wf(),
            post.wf(),
            0 <= i < pre.hashes@.len(),
            post.hashes@.len() == pre.hashes@.len(),
            forall|j: int| 0 <= j < pre.hashes@.len() && j != i ==> post.hashes@[j] == pre.hashes@[j],
            post.hashes@[i].name@ == pre.hashes@[i].name@,
        ensures
            forall|n: Seq<char>, f: i64|
                n != pre.hashes@[i].name@ ==> #[trigger] post.hash_val(n, f) == pre.hash_val(n, f),
    {
        let name = pre.hashes@[i].name@;
        assert forall|n: Seq<char>, f: i64| n != name implies #[trigger] post.hash_val(n, f)
            == pre.hash_val(n, f) by {
            if pre.has_hash(n) {
                let j = pre.hash_idx(n);
                assert(pre.hashes@[j].name@ == n);
                assert(j != i);
                post.lemma_hash_idx_is(n, j);
                pre.lemma_hash_idx_is(n, j);
                if pre.hash_has_field(n, f) {
                    let k = pre.hash_field_idx(n, f);
                    assert(pre.hashes@[j].fields@[k].0 == f);
                    pre.lemma_field_idx_is(n, f, k);
                    post.lemma_field_idx_is(n, f, k);
                } else {
                    if post.hash_has_field(n, f) {
                        let k = post.hash_field_idx(n, f);
                        assert(post.hashes@[j].fields@[k].0 == f);
                        pre.lemma_field_idx_is(n, f, k);
                    }
                }
            } else {
                if post.has_hash(n) {
                    let j = post.hash_idx(n);
                    assert(post.hashes@[j].name@ == n);
                    assert(j != i);
                    assert(pre.hashes@[j].name@ == n);
                }
                assert(!post.has_hash(n));
            }
        }
    }

    /// Atomically adds `delta` to the counter under `hash`/`field`, creating
    /// it at zero first when absent, and returns the new value. `delta = 0`
    /// reads, or initializes, the counter. Fails exactly when the result
    /// would leave the counter range, leaving the store unchanged.
    pub fn hash_incr(&mut self, hash: &str, field: i64, delta: i64) -> (r: Result<
        i64,
        StorageError,
    >)
        requires
            old(self).wf(),
        ensures
            final(self).wf(),
            r is Ok <==> i64::MIN <= old(self).hash_val(hash@, field) + delta <= i64::MAX,
            r matches Ok(v) ==> v == old(self).hash_val(hash@, field) + delta
                && final(self).hash_val(hash@, field) == v,
            r is Err ==> *final(self) == *old(self) && r == Err::<i64, StorageError>(
                StorageError::CounterOverflow,
            ),
            forall|n: Seq<char>, f: i64|
                n != hash@ || f != field ==> #[trigger] final(self).hash_val(n, f)
                    == old(self).hash_val(n, f),
            forall|n: Seq<char>|
                #[trigger] final(self).set_members(n) == old(self).set_members(n),
    {
        let found = self.find_hash(hash);
        match found {
            Some(i) => {
                proof {
                    self.lemma_hash_idx_is(hash@, i as int);
                }
                let fk = find_field(&self.hashes[i].fields, field);
                match fk {
                    Some(k) => {
                        let cur = self.hashes[i].fields[k].1;
                        proof {
                            self.lemma_field_idx_is(hash@, field, k as int);
                        }
                        if (delta > 0 && cur > i64::MAX - delta) || (delta < 0 && cur < i64::MIN
                            - delta) {
                            return Err(StorageError::CounterOverflow);
                        }
                        let v = cur + delta;
                        self.hashes[i].fields[k] = (field, v);
                        proof {
                            let pre = *old(self);
                            let post = *self;
                            assert(post.hashes@[i as int].fields@ =~= pre.hashes@[
                                i as int
                            ].fields@.update(k as int, (field, v)));
                            assert(post.wf());
                            post.lemma_hash_idx_is(hash@, i as int);
                            post.lemma_field_idx_is(hash@, field, k as int);
                            Self::lemma_hashes_framed(pre, post, i as int);
                            assert forall|g: i64| g != field implies #[trigger] post.hash_val(
                                hash@,
                                g,
                            ) == pre.hash_val(hash@, g) by {
                                if pre.hash_has_field(hash@, g) {
                                    let k2 = pre.hash_field_idx(hash@, g);
                                    assert(pre.hashes@[i as int].fields@[k2].0 == g);
                                    assert(k2 != k);
                                    pre.lemma_field_idx_is(hash@, g, k2);
                                    post.lemma_field_idx_is(hash@, g, k2);
                                } else {
                                    if post.hash_has_field(hash@, g) {
                                        let k2 = post.hash_field_idx(hash@, g);
                                        assert(post.hashes@[i as int].fields@[k2].0 == g);
                                        assert(k2 != k);
                                        pre.lemma_field_idx_is(hash@, g, k2);
                                    }
                                }
                            }
                            assert(post.sets@ == pre.sets@);
                            Self::lemma_same_sets(pre, post);
                        }
                        Ok(v)
                    },
                    None => {
                        let v = delta;
                        self.hashes[i].fields.push((field, v));
                        proof {
                            let pre = *old(self);
                            let post = *self;
                            let flen = pre.hashes@[i as int].fields@.len() as int;
                            assert(post.hashes@[i as int].fields@ =~= pre.hashes@[
                                i as int
                            ].fields@.push((field, v)));
                            assert forall|k1: int, k2: int|
                                0 <= k1 < k2 < post.hashes@[i as int].fields@.len() implies post.hashes@[
                                i as int
                            ].fields@[k1].0 != post.hashes@[i as int].fields@[k2].0 by {
                                if k2 == flen {
                                    assert(post.hashes@[i as int].fields@[k1]
                                        == pre.hashes@[i as int].fields@[k1]);
                                }
                            }
                            assert(post.wf());
                            post.lemma_hash_idx_is(hash@, i as int);
                            assert(post.hashes@[i as int].fields@[flen].0 == field);
                            post.lemma_field_idx_is(hash@, field, flen);
                            assert(!pre.hash_has_field(hash@, field));
                            assert(pre.hash_val(hash@, field) == 0);
                            Self::lemma_hashes_framed(pre, post, i as int);
                            assert forall|g: i64| g != field implies #[trigger] post.hash_val(
                                hash@,
                                g,
                            ) == pre.hash_val(hash@, g) by {
                                if pre.hash_has_field(hash@, g) {
                                    let k2 = pre.hash_field_idx(hash@, g);
                                    assert(pre.hashes@[i as int].fields@[k2].0 == g);
                                    pre.lemma_field_idx_is(hash@, g, k2);
                                    post.lemma_field_idx_is(hash@, g, k2);
                                } else {
                                    if post.hash_has_field(hash@, g) {
                                        let k2 = post.hash_field_idx(hash@, g);
                                        assert(post.hashes@[i as int].fields@[k2].0 == g);
                                        assert(k2 != flen);
                                        pre.lemma_field_idx_is(hash@, g, k2);
                                    }
                                }
                            }
                            assert(post.sets@ == pre.sets@);
                            Self::lemma_same_sets(pre, post);
                        }
                        Ok(v)
                    },
                }
            },
            None => {
                let v = delta;
                let mut fields: Vec<(i64, i64)> = Vec::new();
                fields.push((field, v));
                let entry = StoredHash { name: hash.to_owned(), fields };
                self.hashes.push(entry);
                proof {
                    let pre = *old(self);
                    let post = *self;
                    let i = pre.hashes@.len() as int;
                    assert(post.hashes@[i].name@ == hash@);
                    assert(post.hashes@[i].fields@ =~= seq![(field, v)]);
                    assert(forall|j: int| 0 <= j < i ==> post.hashes@[j] == pre.hashes@[j]);
                    assert forall|j: int| 0 <= j < i implies (#[trigger] post.hashes@[j]).name@
                        != hash@ by {
                        if post.hashes@[j].name@ == hash@ {
                            assert(pre.has_hash(hash@));
                        }
                    }
                    assert(post.wf());
                    post.lemma_hash_idx_is(hash@, i);
                    post.lemma_field_idx_is(hash@, field, 0);
                    assert(!pre.has_hash(hash@));
                    assert(pre.hash_val(hash@, field) == 0);
                    assert forall|n: Seq<char>, f: i64| n != hash@ || f != field implies #[trigger] post.hash_val(
                        n,
                        f,
                    ) == pre.hash_val(n, f) by {
                        if n != hash@ {
                            if pre.has_hash(n) {
                                let j = pre.hash_idx(n);
                                assert(pre.hashes@[j].name@ == n);
                                post.lemma_hash_idx_is(n, j);
                                pre.lemma_hash_idx_is(n, j);
                                if pre.hash_has_field(n, f) {
                                    let k = pre.hash_field_idx(n, f);
                                    assert(pre.hashes@[j].fields@[k].0 == f);
                                    pre.lemma_field_idx_is(n, f, k);
                                    post.lemma_field_idx_is(n, f, k);
                                } else {
                                    if post.hash_has_field(n, f) {
                                        let k = post.hash_field_idx(n, f);
                                        assert(post.hashes@[j].fields@[k].0 == f);
                                        pre.lemma_field_idx_is(n, f, k);
                                    }
                                }
                            } else {
                                if post.has_hash(n) {
                                    let j = post.hash_idx(n);
                                    assert(post.hashes@[j].name@ == n);
                                    assert(j != i);
                                    assert(pre.hashes@[j].name@ == n);
                                }
                                assert(!post.has_hash(n));
                            }
                        } else {
                            assert(f != field);
                            if post.hash_has_field(n, f) {
                                let k = post.hash_field_idx(n, f);
                                assert(post.hashes@[i].fields@[k].0 == f);
                                assert(k == 0);
                            }
                            assert(!post.hash_has_field(n, f));
                            assert(!pre.hash_has_field(n, f));
                        }
                    }
                    assert(post.sets@ == pre.sets@);
                    Self::lemma_same_sets(pre, post);
                }
                Ok(v)
            },
        }
    }

    /// In one atomic step, adds `value` to every set named in `add_to_sets`,
    /// then reports how many of the sets named in `count_in_sets` contain
    /// `value` afterwards — so no concurrent addition between the add and the
    /// count can be missed.
    pub fn sets_add_and_count_containing(
        &mut self,
        add_to_sets: &Vec<String>,
        count_in_sets: &Vec<String>,
        value: i64,
    ) -> (r: usize)
        requires
            old(self).wf(),
        ensures
            final(self).wf(),
            spec_adds_applied(*old(self), *final(self), add_to_sets@, value),
            forall|n: Seq<char>, f: i64|
                #[trigger] final(self).hash_val(n, f) == old(self).hash_val(n, f),
            r == spec_count_containing(*final(self), count_in_sets@, value),
    {
        let alen = add_to_sets.len();
        let mut i: usize = 0;
        proof {
            assert(add_to_sets@.take(0) =~= Seq::<String>::empty());
        }
        while i < alen
            invariant
                old(self).wf(),
                self.wf(),
                alen == add_to_sets@.len(),
                0 <= i <= alen,
                forall|n: Seq<char>|
                    spec_names_contain(add_to_sets@.take(i as int), n)
                        ==> #[trigger] self.set_members(n) == old(self).set_members(n).insert(
                        value,
                    ),
                forall|n: Seq<char>|
                    !spec_names_contain(add_to_sets@.take(i as int), n)
                        ==> #[trigger] self.set_members(n) == old(self).set_members(n),
                forall|n: Seq<char>, f: i64|
                    #[trigger] self.hash_val(n, f) == old(self).hash_val(n, f),
            decreases alen - i,
        {
            let ghost mid = *self;
            self.set_add(add_to_sets[i].as_str(), value);
            proof {
                let a = add_to_sets@[i as int]@;
                assert forall|n: Seq<char>|
                    spec_names_contain(add_to_sets@.take(i + 1), n)
                        implies #[trigger] self.set_members(n) == old(self).set_members(n).insert(
                    value,
                ) by {
                    let k = choose|k: int|
                        0 <= k < i + 1 && (#[trigger] add_to_sets@.take(i + 1)[k])@ == n;
                    if k < i {
                        assert(add_to_sets@.take(i as int)[k] == add_to_sets@.take(i + 1)[k]);
                        assert(spec_names_contain(add_to_sets@.take(i as int), n));
                        if n == a {
                            assert(mid.set_members(n) == old(self).set_members(n).insert(value));
                            assert(self.set_members(n) == mid.set_members(n).insert(value));
                            assert(old(self).set_members(n).insert(value).insert(value)
                                =~= old(self).set_members(n).insert(value));
                        } else {
                            assert(self.set_members(n) == mid.set_members(n));
                        }
                    } else {
                        assert(n == a);
                        if spec_names_contain(add_to_sets@.take(i as int), n) {
                            assert(mid.set_members(n) == old(self).set_members(n).insert(value));
                            assert(old(self).set_members(n).insert(value).insert(value)
                                =~= old(self).set_members(n).insert(value));
                        } else {
                            assert(mid.set_members(n) == old(self).set_members(n));
                        }
                        assert(self.set_members(n) == mid.set_members(n).insert(value));
                    }
                }
                assert forall|n: Seq<char>|
                    !spec_names_contain(add_to_sets@.take(i + 1), n)
                        implies #[trigger] self.set_members(n) == old(self).set_members(n) by {
                    assert(add_to_sets@.take(i + 1)[i as int] == add_to_sets@[i as int]);
                    assert(n != a);
                    if spec_names_contain(add_to_sets@.take(i as int), n) {
                        let k = choose|k: int|
                            0 <= k < i && (#[trigger] add_to_sets@.take(i as int)[k])@ == n;
                        assert(add_to_sets@.take(i + 1)[k] == add_to_sets@.take(i as int)[k]);
                        assert(spec_names_contain(add_to_sets@.take(i + 1), n));
                    }
                    assert(self.set_members(n) == mid.set_members(n));
                }
            }
            i = i + 1;
        }
        proof {
            assert(add_to_sets@.take(alen as int) =~= add_to_sets@);
        }
        let ghost snap = *self;
        let clen = count_in_sets.len();
        let mut cnt: usize = 0;
        let mut j: usize = 0;
        proof {
            assert(count_in_sets@.skip(0) =~= count_in_sets@);
        }
        while j < clen
            invariant
                *self == snap,
                self.wf(),
                clen == count_in_sets@.len(),
                0 <= j <= clen,
                cnt <= j,
                cnt + spec_count_containing(snap, count_in_sets@.skip(j as int), value)
                    == spec_count_containing(snap, count_in_sets@, value),
            decreases clen - j,
        {
            let c = self.set_contains(count_in_sets[j].as_str(), value);
            proof {
                let s = count_in_sets@.skip(j as int);
                assert(s[0] == count_in_sets@[j as int]);
                assert(s.drop_first() =~= count_in_sets@.skip(j + 1));
            }
            if c {
                cnt = cnt + 1;
            }
            j = j + 1;
        }
        proof {
            assert(count_in_sets@.skip(clen as int) =~= Seq::<String>::empty());
        }
        cnt
    }

    /// The cardinality of one named set.
    pub fn set_len(&self, set: &str) -> (r: u64)
        requires
            self.wf(),
        ensures
            r == self.set_card(set@),
    {
        let found = self.find_set(set);
        match found {
            Some(idx) => {
                proof {
                    self.lemma_set_idx_is(set@, idx as int);
                    self.sets@[idx as int].members@.unique_seq_to_set();
                }
                self.sets[idx].members.len() as u64
            },
            None => {
                proof {
                    assert(self.set_members(set@) =~= Set::<i64>::empty());
                    assert(Set::<i64>::empty().len() == 0);
                }
                0
            },
        }
    }

    /// The cardinality of each named set, in order.
    pub fn sets_len(&self, sets: &Vec<String>) -> (r: Vec<u64>)
        requires
            self.wf(),
        ensures
            r@.len() == sets@.len(),
            forall|i: int| 0 <= i < sets@.len() ==> #[trigger] r@[i] == self.set_card(sets@[i]@),
    {
        let n = sets.len();
        let mut out: Vec<u64> = Vec::new();
        let mut i: usize = 0;
        while i < n
            invariant
                self.wf(),
                n == sets@.len(),
                0 <= i <= n,
                out@.len() == i,
                forall|k: int| 0 <= k < i ==> #[trigger] out@[k] == self.set_card(sets@[k]@),
            decreases n - i,
        {
            let found = self.find_set(sets[i].as_str());
            let card: u64 = match found {
                Some(idx) => {
                    proof {
                        self.lemma_set_idx_is(sets@[i as int]@, idx as int);
                        self.sets@[idx as int].members@.unique_seq_to_set();
                    }
                    self.sets[idx].members.len() as u64
                },
                None => {
                    proof {
                        assert(self.set_members(sets@[i as int]@) =~= Set::<i64>::empty());
                        assert(Set::<i64>::empty().len() == 0);
                    }
                    0
                },
            };
            out.push(card);
            i = i + 1;
        }
        out
    }

    /// Whether `value` is a member of the named set.
    pub fn set_contains(&self, set: &str, value: i64) -> (r: bool)
        requires
            self.wf(),
        ensures
            r == self.set_members(set@).contains(value),
    {
        let found = self.find_set(set);
        match found {
            Some(i) => {
                proof {
                    self.lemma_set_idx_is(set@, i as int);
                }
                let r = contains_i64(&self.sets[i].members, value);
                proof {
                    assert(self.sets@[i as int].members@.to_set().contains(value)
                        == self.sets@[i as int].members@.contains(value));
                }
                r
            },
            None => false,
        }
    }
}

/// Whether one of `names` reads `n`.
pub open spec fn spec_names_contain(names: Seq<String>, n: Seq<char>) -> bool {
    exists|k: int| 0 <= k < names.len() && (#[trigger] names[k])@ == n
}

/// How many of the named sets contain `v` in store `st` (a name listed twice
/// counts twice).
pub open spec fn spec_count_containing(st: Storage, names: Seq<String>, v: i64) -> int
    decreases names.len(),
{
    if names.len() == 0 {
        0
    } else {
        (if st.set_members(names[0]@).contains(v) {
            1int
        } else {
            0int
        }) + spec_count_containing(st, names.drop_first(), v)
    }
}

/// Two stores carrying the same views: equal sets and equal counters.
pub open spec fn spec_same_views(a: Storage, b: Storage) -> bool {
    &&& forall|n: Seq<char>| #[trigger] b.set_members(n) == a.set_members(n)
    &&& forall|n: Seq<char>, f: i64| #[trigger] b.hash_val(n, f) == a.hash_val(n, f)
}

/// The step a combined add takes: `v` joins every named set, all else stays.
pub open spec fn spec_adds_applied(pre: Storage, post: Storage, adds: Seq<String>, v: i64) -> bool {
    &&& forall|n: Seq<char>|
        spec_names_contain(adds, n) ==> #[trigger] post.set_members(n) == pre.set_members(
            n,
        ).insert(v)
    &&& forall|n: Seq<char>|
        !spec_names_contain(adds, n) ==> #[trigger] post.set_members(n) == pre.set_members(n)
}

/// A store whose sets only gained `v` reports at least the old count.
proof fn lemma_count_monotone(a: Storage, b: Storage, names: Seq<String>, v: i64)
    requires
        forall|n: Seq<char>|
            #[trigger] a.set_members(n).contains(v) ==> b.set_members(n).contains(v),
    ensures
        spec_count_containing(b, names, v) >= spec_count_containing(a, names, v),
    decreases names.len(),
{
    if names.len() == 0 {
    } else {
        lemma_count_monotone(a, b, names.drop_first(), v);
    }
}

/// Law: the combined add-and-count loses no update. When one combined call
/// applies its additions and a second call's additions are applied on the
/// result, every required set named by either call holds the member
/// afterwards, and the count taken on the final state is no less than on the
/// initial one.
pub proof fn lemma_no_lost_update(
    st0: Storage,
    st1: Storage,
    st2: Storage,
    adds1: Seq<String>,
    adds2: Seq<String>,
    required: Seq<String>,
    v: i64,
)
    requires
        spec_adds_applied(st0, st1, adds1, v),
        spec_adds_applied(st1, st2, adds2, v),
    ensures
        forall|k: int|
            0 <= k < required.len() && (spec_names_contain(adds1, (#[trigger] required[k])@)
                || spec_names_contain(adds2, required[k]@)) ==> st2.set_members(
                required[k]@,
            ).contains(v),
        spec_count_containing(st2, required, v) >= spec_count_containing(st0, required, v),
{
    assert forall|k: int|
        0 <= k < required.len() && (spec_names_contain(adds1, (#[trigger] required[k])@)
            || spec_names_contain(adds2, required[k]@)) implies st2.set_members(
        required[k]@,
    ).contains(v) by {
        let n = required[k]@;
        if spec_names_contain(adds2, n) {
            assert(st2.set_members(n) == st1.set_members(n).insert(v));
        } else {
            assert(spec_names_contain(adds1, n));
            assert(st1.set_members(n) == st0.set_members(n).insert(v));
            assert(st2.set_members(n) == st1.set_members(n));
        }
    }
    assert forall|n: Seq<char>| #[trigger] st0.set_members(n).contains(v) implies st2.set_members(
        n,
    ).contains(v) by {
        if spec_names_contain(adds1, n) {
            assert(st1.set_members(n) == st0.set_members(n).insert(v));
        } else {
            assert(st1.set_members(n) == st0.set_members(n));
        }
        if spec_names_contain(adds2, n) {
            assert(st2.set_members(n) == st1.set_members(n).insert(v));
        } else {
            assert(st2.set_members(n) == st1.set_members(n));
        }
    }
    lemma_count_monotone(st0, st2, required, v);
}

/// How many entries of a run of membership replies are positive.
pub open spec fn spec_count_true(s: Seq<bool>) -> int
    decreases s.len(),
{
    if s.len() == 0 {
        0
    } else {
        (if s[0] {
            1int
        } else {
            0int
        }) + spec_count_true(s.drop_first())
    }
}

/// Counts the positive entries of a run of membership replies, as a
/// transactional backend hands them back.
pub fn count_true_replies(replies: &Vec<bool>) -> (r: usize)
    ensures
        r == spec_count_true(replies@),
{
    let n = replies.len();
    let mut cnt: usize = 0;
    let mut i: usize = 0;
    proof {
        assert(replies@.skip(0) =~= replies@);
    }
    while i < n
        invariant
            n == replies@.len(),
            0 <= i <= n,
            cnt <= i,
            cnt + spec_count_true(replies@.skip(i as int)) == spec_count_true(replies@),
        decreases n - i,
    {
        proof {
            assert(replies@.skip(i as int)[0] == replies@[i as int]);
            assert(replies@.skip(i as int).drop_first() =~= replies@.skip(i + 1));
        }
        if replies[i] {
            cnt = cnt + 1;
        }
        i = i + 1;
    }
    proof {
        assert(replies@.skip(n as int) =~= Seq::<bool>::empty());
    }
    cnt
}

/// Appending an element to a member list inserts it into the set view.
proof fn lemma_push_to_set(s: Seq<i64>, v: i64)
    ensures
        s.push(v).to_set() =~= s.to_set().insert(v),
{
    assert forall|x: i64| #[trigger] s.push(v).contains(x) implies s.contains(x) || x == v by {
        let i = choose|i: int| 0 <= i < s.push(v).len() && s.push(v)[i] == x;
        if i < s.len() {
            assert(s[i] == x);
        }
    }
    assert forall|x: i64| s.contains(x) implies s.push(v).contains(x) by {
        let i = choose|i: int| 0 <= i < s.len() && s[i] == x;
        assert(s.push(v)[i] == x);
    }
    assert(s.push(v)[s.len() as int] == v);
    assert(s.push(v).contains(v));
}

/// Inserting an element already in a member list leaves the set view as it is.
proof fn lemma_contained_insert(s: Seq<i64>, v: i64)
    requires
        s.contains(v),
    ensures
        s.to_set().insert(v) =~= s.to_set(),
{
}

/// The position of `field` among a table's entries, when present.
fn find_field(fields: &Vec<(i64, i64)>, field: i64) -> (r: Option<usize>)
    ensures
        match r {
            Some(k) => k < fields@.len() && fields@[k as int].0 == field,
            None => forall|k: int| 0 <= k < fields@.len() ==> (#[trigger] fields@[k]).0 != field,
        },
{
    let n = fields.len();
    let mut i: usize = 0;
    while i < n
        invariant
            n == fields@.len(),
            0 <= i <= n,
            forall|k: int| 0 <= k < i ==> (#[trigger] fields@[k]).0 != field,
        decreases n - i,
    {
        if fields[i].0 == field {
            return Some(i);
        }
        i = i + 1;
    }
    None
}

/// Whether a vector of identities contains `x`.
fn contains_i64(v: &Vec<i64>, x: i64) -> (r: bool)
    ensures
        r == v@.contains(x),
{
    let n = v.len();
    let mut i: usize = 0;
    while i < n
        invariant
            n == v@.len(),
            0 <= i <= n,
            forall|j: int| 0 <= j < i ==> v@[j] != x,
        decreases n - i,
    {
        if v[i] == x {
            return true;
        }
        i = i + 1;
    }
    false
}

} // verus!
