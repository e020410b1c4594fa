//! A table keyed by paths.
//!
//! Entries are filed under the digest of their path, so finding one costs a
//! digest and a look at the few entries that share it, however many paths the
//! table holds.

use crate::path::{FsPath, PathModel};
use std::collections::HashMap;
use vstd::prelude::*;

verus! {

broadcast use vstd::std_specs::hash::group_hash_axioms;

/// One entry of the table.
#[derive(Debug, Clone)]
pub struct Slot<V> {
    key: FsPath,
    value: V,
}

/// No two slots of `bucket` have the same path.
spec fn distinct<V>(bucket: Seq<Slot<V>>) -> bool {
    forall|i: int, j: int|
        0 <= i < j < bucket.len() ==> (#[trigger] bucket[i]).key@ != (#[trigger] bucket[j]).key@
}

/// Some slot of `bucket` has the path `key`.
spec fn holds<V>(bucket: Seq<Slot<V>>, key: PathModel) -> bool {
    exists|i: int| 0 <= i < bucket.len() && (#[trigger] bucket[i]).key@ == key
}

/// What `bucket` files under `key`.
spec fn lookup<V>(bucket: Seq<Slot<V>>, key: PathModel) -> Option<V> {
    if holds(bucket, key) {
        let i = choose|i: int| 0 <= i < bucket.len() && (#[trigger] bucket[i]).key@ == key;
        Some(bucket[i].value)
    } else {
        None
    }
}

proof fn lemma_lookup_found<V>(bucket: Seq<Slot<V>>, i: int)
    requires
        distinct(bucket),
        0 <= i < bucket.len(),
    ensures
        lookup(bucket, bucket[i].key@) == Some(bucket[i].value),
{
    let key = bucket[i].key@;
    assert(holds(bucket, key));
    let c = choose|c: int| 0 <= c < bucket.len() && (#[trigger] bucket[c]).key@ == key;
    if c < i {
        assert(bucket[c].key@ != bucket[i].key@);
    }
    if i < c {
        assert(bucket[i].key@ != bucket[c].key@);
    }
}

proof fn lemma_lookup_missing<V>(bucket: Seq<Slot<V>>, key: PathModel)
    requires
        forall|i: int| 0 <= i < bucket.len() ==> (#[trigger] bucket[i]).key@ != key,
    ensures
        lookup(bucket, key).is_none(),
{
}

proof fn lemma_lookup_cases<V>(bucket: Seq<Slot<V>>, key: PathModel)
    requires
        distinct(bucket),
    ensures
        match lookup(bucket, key) {
            Some(v) => exists|i: int|
                0 <= i < bucket.len() && (#[trigger] bucket[i]).key@ == key && bucket[i].value == v,
            None => forall|i: int| 0 <= i < bucket.len() ==> (#[trigger] bucket[i]).key@ != key,
        },
{
    if holds(bucket, key) {
        let c = choose|c: int| 0 <= c < bucket.len() && (#[trigger] bucket[c]).key@ == key;
        assert(bucket[c].key@ == key && bucket[c].value == lookup(bucket, key).unwrap());
    }
}

/// Putting `slot` in place of the slot at `i`, which has the same path, or at
/// the end when no slot has its path, files `slot` and leaves the rest.
proof fn lemma_put<V>(old_bucket: Seq<Slot<V>>, new_bucket: Seq<Slot<V>>, slot: Slot<V>, i: int)
    requires
        distinct(old_bucket),
        0 <= i <= old_bucket.len(),
        i < old_bucket.len() ==> old_bucket[i].key@ == slot.key@ && new_bucket
            == old_bucket.update(i, slot),
        i == old_bucket.len() ==> new_bucket == old_bucket.push(slot) && forall|j: int|
            0 <= j < old_bucket.len() ==> (#[trigger] old_bucket[j]).key@ != slot.key@,
    ensures
        distinct(new_bucket),
        forall|key: PathModel|
            #[trigger] lookup(new_bucket, key) == if key == slot.key@ {
                Some(slot.value)
            } else {
                lookup(old_bucket, key)
            },
{
    assert forall|a: int, b: int| 0 <= a < b < new_bucket.len() implies (
    #[trigger] new_bucket[a]).key@ != (#[trigger] new_bucket[b]).key@ by {
        if a < old_bucket.len() && b < old_bucket.len() {
            assert(old_bucket[a].key@ != old_bucket[b].key@);
        }
    }
    assert forall|key: PathModel|
        #[trigger] lookup(new_bucket, key) == if key == slot.key@ {
            Some(slot.value)
        } else {
            lookup(old_bucket, key)
        } by {
        if key == slot.key@ {
            assert(new_bucket[i] == slot);
            lemma_lookup_found(new_bucket, i);
        } else {
            lemma_lookup_cases(old_bucket, key);
            match lookup(old_bucket, key) {
                Some(v) => {
                    let c = choose|c: int|
                        0 <= c < old_bucket.len() && (#[trigger] old_bucket[c]).key@ == key
                            && old_bucket[c].value == v;
                    assert(new_bucket[c] == old_bucket[c]);
                    lemma_lookup_found(new_bucket, c);
                },
                None => {
                    assert forall|j: int| 0 <= j < new_bucket.len() implies (
                    #[trigger] new_bucket[j]).key@ != key by {
                        if j != i {
                            assert(new_bucket[j] == old_bucket[j]);
                        }
                    }
                    lemma_lookup_missing(new_bucket, key);
                },
            }
        }
    }
}

/// Taking the slot at `i` out unfiles its path and leaves the rest.
proof fn lemma_take_out<V>(old_bucket: Seq<Slot<V>>, i: int)
    requires
        distinct(old_bucket),
        0 <= i < old_bucket.len(),
    ensures
        distinct(old_bucket.remove(i)),
        forall|key: PathModel|
            #[trigger] lookup(old_bucket.remove(i), key) == if key == old_bucket[i].key@ {
                None
            } else {
                lookup(old_bucket, key)
            },
{
    let new_bucket = old_bucket.remove(i);
    assert forall|a: int, b: int| 0 <= a < b < new_bucket.len() implies (
    #[trigger] new_bucket[a]).key@ != (#[trigger] new_bucket[b]).key@ by {
        let oa = if a < i { a } else { a + 1 };
        let ob = if b < i { b } else { b + 1 };
        assert(old_bucket[oa].key@ != old_bucket[ob].key@);
    }
    assert forall|key: PathModel|
        #[trigger] lookup(new_bucket, key) == if key == old_bucket[i].key@ {
            None
        } else {
            lookup(old_bucket, key)
        } by {
        if key == old_bucket[i].key@ {
            assert forall|j: int| 0 <= j < new_bucket.len() implies (
            #[trigger] new_bucket[j]).key@ != key by {
                let oj = if j < i { j } else { j + 1 };
                if oj < i {
                    assert(old_bucket[oj].key@ != old_bucket[i].key@);
                } else {
                    assert(old_bucket[i].key@ != old_bucket[oj].key@);
                }
            }
            lemma_lookup_missing(new_bucket, key);
        } else {
            lemma_lookup_cases(old_bucket, key);
            match lookup(old_bucket, key) {
                Some(v) => {
                    let c = choose|c: int|
                        0 <= c < old_bucket.len() && (#[trigger] old_bucket[c]).key@ == key
                            && old_bucket[c].value == v;
                    let nc = if c < i { c } else { c - 1 };
                    assert(new_bucket[nc] == old_bucket[c]);
                    lemma_lookup_found(new_bucket, nc);
                },
                None => {
                    assert forall|j: int| 0 <= j < new_bucket.len() implies (
                    #[trigger] new_bucket[j]).key@ != key by {
                        let oj = if j < i { j } else { j + 1 };
                        assert(new_bucket[j] == old_bucket[oj]);
                    }
                    lemma_lookup_missing(new_bucket, key);
                },
            }
        }
    }
}

/// The slots filed under `h`.
spec fn filed<V>(buckets: Map<u64, Vec<Slot<V>>>, h: u64) -> Seq<Slot<V>> {
    if buckets.contains_key(h) {
        buckets[h]@
    } else {
        Seq::empty()
    }
}

/// Every slot is filed under the digest of its path, once.
spec fn orderly<V>(buckets: Map<u64, Vec<Slot<V>>>) -> bool {
    forall|h: u64| #[trigger]
        buckets.contains_key(h) ==> distinct(buckets[h]@) && forall|i: int|
            0 <= i < buckets[h]@.len() ==> (#[trigger] buckets[h]@[i]).key@.digest() == h
}

/// Without buckets nothing is filed.
proof fn lemma_no_buckets<V>(buckets: Map<u64, Vec<Slot<V>>>)
    requires
        buckets == Map::<u64, Vec<Slot<V>>>::empty(),
    ensures
        orderly(buckets),
        view_of(buckets) == Map::<PathModel, V>::empty(),
        view_of(buckets).dom().finite(),
{
    assert(view_of(buckets) =~= Map::<PathModel, V>::empty()) by {
        assert forall|key: PathModel| !view_of(buckets).contains_key(key) by {
            lemma_lookup_missing(filed(buckets, key.digest()), key);
        }
    }
}

/// Where only the bucket under `h` changes, and it comes to file `value`
/// under `key` (or nothing, for none) and else what it filed, the table
/// changes by that one entry.
proof fn lemma_rebucket<V>(
    before: Map<u64, Vec<Slot<V>>>,
    after: Map<u64, Vec<Slot<V>>>,
    h: u64,
    key: PathModel,
    value: Option<V>,
)
    requires
        orderly(before),
        key.digest() == h,
        forall|g: u64| g != h ==> (#[trigger] after.contains_key(g) <==> before.contains_key(g)),
        forall|g: u64| g != h && before.contains_key(g) ==> #[trigger] after[g] == before[g],
        distinct(filed(after, h)),
        forall|j: int|
            0 <= j < filed(after, h).len() ==> (#[trigger] filed(after, h)[j]).key@.digest() == h,
        forall|k: PathModel|
            #[trigger] lookup(filed(after, h), k) == if k == key {
                value
            } else {
                lookup(filed(before, h), k)
            },
    ensures
        orderly(after),
        view_of(after) == match value {
            Some(v) => view_of(before).insert(key, v),
            None => view_of(before).remove(key),
        },
{
    assert forall|g: u64| #[trigger] after.contains_key(g) implies distinct(after[g]@)
        && forall|j: int|
        0 <= j < after[g]@.len() ==> (#[trigger] after[g]@[j]).key@.digest() == g by {
        if g != h {
            assert(before.contains_key(g));
            assert(after[g] == before[g]);
        } else {
            assert(filed(after, h) == after[g]@);
        }
    }
    let wanted = match value {
        Some(v) => view_of(before).insert(key, v),
        None => view_of(before).remove(key),
    };
    assert forall|k: PathModel|
        lookup(filed(after, k.digest()), k) == if k == key {
            value
        } else {
            lookup(filed(before, k.digest()), k)
        } by {
        if k.digest() != h {
            let g = k.digest();
            assert(after.contains_key(g) <==> before.contains_key(g));
            if before.contains_key(g) {
                assert(after[g] == before[g]);
            }
            assert(filed(after, g) == filed(before, g));
        }
    }
    assert(view_of(after) =~= wanted);
}

/// A table from paths to values of type `V`.
#[derive(Debug)]
pub struct PathMap<V> {
    buckets: HashMap<u64, Vec<Slot<V>>>,
}

/// The table that `buckets` stands for.
spec fn view_of<V>(buckets: Map<u64, Vec<Slot<V>>>) -> Map<PathModel, V> {
    Map::new(
        |key: PathModel| lookup(filed(buckets, key.digest()), key).is_some(),
        |key: PathModel| lookup(filed(buckets, key.digest()), key).unwrap(),
    )
}

impl<V> View for PathMap<V> {
    type V = Map<PathModel, V>;

    closed spec fn view(&self) -> Map<PathModel, V> {
        view_of(self.buckets@)
    }
}

/// Where `key` stands in `bucket`, or the length of `bucket` if it does not.
fn position<V>(bucket: &Vec<Slot<V>>, key: &FsPath) -> (i: usize)
    ensures
        i <= bucket.len(),
        i < bucket.len() ==> bucket@[i as int].key@ == key@,
        i == bucket.len() ==> forall|j: int|
            0 <= j < bucket.len() ==> (#[trigger] bucket@[j]).key@ != key@,
{
    let mut i: usize = 0;
    while i < bucket.len()
        invariant
            i <= bucket.len(),
            forall|j: int| 0 <= j < i ==> (#[trigger] bucket@[j]).key@ != key@,
        decreases bucket.len() - i,
    {
        if bucket[i].key.same(key) {
            return i;
        }
        i += 1;
    }
    i
}

impl<V: Clone> Clone for PathMap<V> {
    fn clone(&self) -> (r: PathMap<V>)
        ensures
            r@ == self@,
            r@.dom().finite(),
    {
        proof {
            use_type_invariant(self);
        }
        PathMap { buckets: self.buckets.clone() }
    }
}

impl<V> PathMap<V> {
    #[verifier::type_invariant]
    spec fn inv(self) -> bool {
        orderly(self.buckets@) && view_of(self.buckets@).dom().finite()
    }

    /// The empty table.
    pub fn new() -> (r: PathMap<V>)
        ensures
            r@ == Map::<PathModel, V>::empty(),
            r@.dom().finite(),
    {
        let buckets: HashMap<u64, Vec<Slot<V>>> = HashMap::new();
        proof {
            lemma_no_buckets(buckets@);
        }
        PathMap { buckets }
    }

    /// The value filed under `key`, if there is one.
    pub fn get(&self, key: &FsPath) -> (r: Option<&V>)
        ensures
            match r {
                Some(v) => self@.contains_key(key@) && self@[key@] == *v,
                None => !self@.contains_key(key@),
            },
            self@.dom().finite(),
    {
        proof {
            use_type_invariant(self);
        }
        let h = key.digest();
        match self.buckets.get(&h) {
            None => {
                proof {
                    lemma_lookup_missing(filed(self.buckets@, h), key@);
                }
                None
            },
            Some(bucket) => {
                let i = position(bucket, key);
                if i < bucket.len() {
                    proof {
                        lemma_lookup_found(bucket@, i as int);
                    }
                    Some(&bucket[i].value)
                } else {
                    proof {
                        lemma_lookup_missing(bucket@, key@);
                    }
                    None
                }
            },
        }
    }

    /// Whether a value is filed under `key`.
    pub fn contains(&self, key: &FsPath) -> (r: bool)
        ensures
            r == self@.contains_key(key@),
            self@.dom().finite(),
    {
        self.get(key).is_some()
    }

    /// Files `value` under `key`, in place of what was filed there.
    pub fn insert(&mut self, key: FsPath, value: V)
        ensures
            final(self)@ == old(self)@.insert(key@, value),
            old(self)@.dom().finite(),
            final(self)@.dom().finite(),
    {
        proof {
            use_type_invariant(&*self);
        }
        let h = key.digest();
        let ghost before = self.buckets@;
        let ghost slot = Slot { key, value };
        let mut buckets: HashMap<u64, Vec<Slot<V>>> = HashMap::new();
        proof {
            lemma_no_buckets(buckets@);
        }
        core::mem::swap(&mut self.buckets, &mut buckets);
        let mut bucket = match buckets.remove(&h) {
            Some(b) => b,
            None => Vec::new(),
        };
        let ghost old_bucket = bucket@;
        assert(old_bucket == filed(before, h));
        let i = position(&bucket, &key);
        if i < bucket.len() {
            bucket.set(i, Slot { key, value });
        } else {
            bucket.push(Slot { key, value });
        }
        let ghost new_bucket = bucket@;
        buckets.insert(h, bucket);
        proof {
            lemma_put(old_bucket, new_bucket, slot, i as int);
            assert(filed(buckets@, h) == new_bucket);
            assert forall|j: int| 0 <= j < new_bucket.len() implies (
            #[trigger] new_bucket[j]).key@.digest() == h by {
                if j != i {
                    assert(new_bucket[j] == old_bucket[j]);
                }
            }
            lemma_rebucket(before, buckets@, h, slot.key@, Some(slot.value));
            assert(view_of(before).insert(slot.key@, slot.value).dom() =~= view_of(
                before,
            ).dom().insert(slot.key@));
        }
        core::mem::swap(&mut self.buckets, &mut buckets);
    }

    /// Takes out what is filed under `key`, and says whether there was
    /// anything. Nothing is kept for a digest under which no path is filed.
    pub fn remove(&mut self, key: &FsPath) -> (r: bool)
        ensures
            r == old(self)@.contains_key(key@),
            final(self)@ == old(self)@.remove(key@),
            old(self)@.dom().finite(),
            final(self)@.dom().finite(),
    {
        proof {
            use_type_invariant(&*self);
        }
        let h = key.digest();
        let ghost before = self.buckets@;
        let mut buckets: HashMap<u64, Vec<Slot<V>>> = HashMap::new();
        proof {
            lemma_no_buckets(buckets@);
        }
        core::mem::swap(&mut self.buckets, &mut buckets);
        let mut bucket = match buckets.remove(&h) {
            Some(b) => b,
            None => Vec::new(),
        };
        let ghost old_bucket = bucket@;
        assert(old_bucket == filed(before, h));
        let i = position(&bucket, key);
        let found = i < bucket.len();
        if found {
            bucket.remove(i);
        }
        let ghost new_bucket = bucket@;
        if bucket.len() > 0 {
            buckets.insert(h, bucket);
        }
        proof {
            assert(filed(buckets@, h) =~= new_bucket);
            if found {
                lemma_lookup_found(old_bucket, i as int);
                lemma_take_out(old_bucket, i as int);
                assert forall|j: int| 0 <= j < new_bucket.len() implies (
                #[trigger] new_bucket[j]).key@.digest() == h by {
                    let oj = if j >= i { j + 1 } else { j };
                    assert(new_bucket[j] == old_bucket[oj]);
                }
            } else {
                lemma_lookup_missing(old_bucket, key@);
            }
            lemma_rebucket(before, buckets@, h, key@, None);
            assert(view_of(before).remove(key@).dom() =~= view_of(before).dom().remove(key@));
        }
        core::mem::swap(&mut self.buckets, &mut buckets);
        found
    }
}

} // verus!
