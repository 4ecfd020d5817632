//! Lists of hashes that are looked up by hash: the header chain by height,
//! and the hashes of the blocks indexed so far.
//!
//! A list keeps its hashes in order and, beside them, the places of the
//! hashes under a short key, so that a lookup compares few hashes.

use std::collections::HashMap;
use vstd::prelude::*;
use vstd::std_specs::hash::group_hash_axioms;

verus! {

broadcast use group_hash_axioms;

/// The byte strings that a list of byte vectors holds.
pub open spec fn views(list: Seq<Vec<u8>>) -> Seq<Seq<u8>> {
    Seq::new(list.len(), |i: int| list[i]@)
}

/// `hash` stands in `chain` at `height` and nowhere below.
pub open spec fn first_at(chain: Seq<Seq<u8>>, hash: Seq<u8>, height: int) -> bool {
    &&& 0 <= height < chain.len()
    &&& chain[height] == hash
    &&& forall|k: int| 0 <= k < height ==> chain[k] != hash
}

/// The height of the header with this hash: the lowest, should the chain
/// hold the hash more than once.
pub open spec fn height_of(chain: Seq<Seq<u8>>, hash: Seq<u8>) -> Option<int> {
    if exists|h: int| first_at(chain, hash, h) {
        Some(choose|h: int| first_at(chain, hash, h))
    } else {
        None
    }
}

/// A hash that stands first at `height` has this height.
pub proof fn lemma_first_at_unique(chain: Seq<Seq<u8>>, hash: Seq<u8>, height: int)
    requires
        first_at(chain, hash, height),
    ensures
        height_of(chain, hash) == Some(height),
        chain.contains(hash),
{
    let h = choose|h: int| first_at(chain, hash, h);
    assert(h == height);
}

/// A hash has a height exactly where the chain holds it.
pub proof fn lemma_height_of_contains(chain: Seq<Seq<u8>>, hash: Seq<u8>)
    ensures
        height_of(chain, hash) is Some <==> chain.contains(hash),
        height_of(chain, hash) matches Some(h) ==> first_at(chain, hash, h),
{
    if chain.contains(hash) {
        let i = choose|i: int| 0 <= i < chain.len() && chain[i] == hash;
        lemma_first_below(chain, hash, i);
    }
}

/// A hash that stands at `at` stands first somewhere at or below `at`.
pub proof fn lemma_first_below(chain: Seq<Seq<u8>>, hash: Seq<u8>, at: int)
    requires
        0 <= at < chain.len(),
        chain[at] == hash,
    ensures
        exists|h: int| first_at(chain, hash, h),
    decreases at,
{
    if exists|k: int| 0 <= k < at && chain[k] == hash {
        let k = choose|k: int| 0 <= k < at && chain[k] == hash;
        lemma_first_below(chain, hash, k);
    } else {
        assert(first_at(chain, hash, at));
    }
}

/// Two byte strings hold the same bytes.
pub fn same_bytes(a: &[u8], b: &[u8]) -> (same: bool)
    ensures
        same == (a@ == b@),
{
    if a.len() != b.len() {
        return false;
    }
    let mut i: usize = 0;
    while i < a.len()
        invariant
            a@.len() == b@.len(),
            i <= a@.len(),
            a@.subrange(0, i as int) =~= b@.subrange(0, i as int),
        decreases a@.len() - i,
    {
        if a[i] != b[i] {
            return false;
        }
        assert(a@.subrange(0, i + 1) =~= a@.subrange(0, i as int).push(a@[i as int]));
        assert(b@.subrange(0, i + 1) =~= b@.subrange(0, i as int).push(b@[i as int]));
        i = i + 1;
    }
    assert(a@ =~= a@.subrange(0, i as int));
    assert(b@ =~= b@.subrange(0, i as int));
    true
}

/// The number of values that `n` bytes can spell, for `n` up to eight.
pub open spec fn span(n: int) -> int {
    if n <= 0 {
        1
    } else if n == 1 {
        0x100
    } else if n == 2 {
        0x1_0000
    } else if n == 3 {
        0x100_0000
    } else if n == 4 {
        0x1_0000_0000
    } else if n == 5 {
        0x100_0000_0000
    } else if n == 6 {
        0x1_0000_0000_0000
    } else if n == 7 {
        0x100_0000_0000_0000
    } else {
        0x1_0000_0000_0000_0000
    }
}

/// The number that the first `n` bytes of `bytes` spell, the first byte
/// weighing most.
pub open spec fn leading(bytes: Seq<u8>, n: int) -> int
    decreases n,
{
    if n <= 0 {
        0
    } else {
        256 * leading(bytes, n - 1) + bytes[n - 1]
    }
}

/// The short key of a byte string: the number that its first eight bytes
/// spell, or all of its bytes where it has fewer.
pub open spec fn short_key(bytes: Seq<u8>) -> int {
    leading(
        bytes,
        if bytes.len() < 8 {
            bytes.len() as int
        } else {
            8
        },
    )
}

/// A short key fits in 64 bits.
pub proof fn lemma_short_key_bound(bytes: Seq<u8>)
    ensures
        0 <= short_key(bytes) <= u64::MAX,
{
    lemma_leading_bound(
        bytes,
        if bytes.len() < 8 {
            bytes.len() as int
        } else {
            8
        },
    );
}

/// The first `n` bytes spell a number below the span of `n` bytes.
proof fn lemma_leading_bound(bytes: Seq<u8>, n: int)
    requires
        0 <= n <= 8,
    ensures
        0 <= leading(bytes, n) < span(n),
    decreases n,
{
    if n > 0 {
        lemma_leading_bound(bytes, n - 1);
    }
}

/// Computes the short key of a byte string.
fn key_of(bytes: &[u8]) -> (key: u64)
    ensures
        key == short_key(bytes@),
{
    let n: usize = if bytes.len() < 8 {
        bytes.len()
    } else {
        8
    };
    let mut key: u64 = 0;
    let mut i: usize = 0;
    while i < n
        invariant
            i <= n <= 8,
            n <= bytes@.len(),
            key == leading(bytes@, i as int),
            key < span(i as int),
        decreases n - i,
    {
        key = 256 * key + bytes[i] as u64;
        i = i + 1;
    }
    key
}

/// A list of hashes with an index of their places.
pub struct HashList {
    hashes: Vec<Vec<u8>>,
    places: HashMap<u64, Vec<usize>>,
}

/// The places in a bucket stand in ascending order.
pub open spec fn ascending(bucket: Seq<usize>) -> bool {
    forall|i: int, j: int| 0 <= i < j < bucket.len() ==> bucket[i] < bucket[j]
}

impl View for HashList {
    type V = Seq<Seq<u8>>;

    closed spec fn view(&self) -> Seq<Seq<u8>> {
        views(self.hashes@)
    }
}

impl HashList {
    /// The index agrees with the list: under each short key stand the
    /// places of the hashes with this key, all of them, in ascending order.
    pub closed spec fn wf(&self) -> bool {
        &&& forall|key: u64, j: int|
            self.places@.contains_key(key) && 0 <= j < self.places@[key]@.len() ==> {
                &&& (#[trigger] self.places@[key]@[j]) < self.hashes@.len()
                &&& short_key(self.hashes@[self.places@[key]@[j] as int]@) == key
            }
        &&& forall|p: int|
            0 <= p < self.hashes@.len() ==> {
                &&& self.places@.contains_key(short_key((#[trigger] self.hashes@[p])@) as u64)
                &&& self.places@[short_key(self.hashes@[p]@) as u64]@.contains(p as usize)
            }
        &&& forall|key: u64|
            self.places@.contains_key(key) ==> ascending((#[trigger] self.places@[key])@)
    }

    /// A list without hashes.
    pub fn new() -> (list: HashList)
        ensures
            list.wf(),
            list@ == Seq::<Seq<u8>>::empty(),
    {
        let list = HashList { hashes: Vec::new(), places: HashMap::new() };
        assert(list@ =~= Seq::<Seq<u8>>::empty());
        list
    }

    /// The number of hashes in the list.
    pub fn len(&self) -> (n: usize)
        ensures
            n == self@.len(),
    {
        self.hashes.len()
    }

    /// The hash at place `i`.
    pub fn get(&self, i: usize) -> (hash: &Vec<u8>)
        requires
            i < self@.len(),
        ensures
            hash@ == self@[i as int],
    {
        &self.hashes[i]
    }

    /// Puts a hash at the end of the list.
    pub fn push(&mut self, hash: Vec<u8>)
        requires
            old(self).wf(),
        ensures
            final(self).wf(),
            final(self)@ == old(self)@.push(hash@),
    {
        let ghost before = *self;
        let key = key_of(hash.as_slice());
        let place: usize = self.hashes.len();
        let mut bucket: Vec<usize> = match self.places.remove(&key) {
            Some(bucket) => bucket,
            None => Vec::new(),
        };
        let ghost old_bucket = bucket@;
        proof {
            assert(ascending(old_bucket));
            assert forall|j: int| 0 <= j < old_bucket.len() implies old_bucket[j] < place by {
                if before.places@.contains_key(key) {
                    assert(before.places@[key]@[j] < before.hashes@.len());
                }
            }
        }
        bucket.push(place);
        self.hashes.push(hash);
        self.places.insert(key, bucket);
        proof {
            assert(self@ =~= before@.push(hash@));
            assert(self.places@ =~= before.places@.insert(key, bucket));
            assert forall|k: u64, j: int|
                self.places@.contains_key(k) && 0 <= j < self.places@[k]@.len() implies {
                &&& (#[trigger] self.places@[k]@[j]) < self.hashes@.len()
                &&& short_key(self.hashes@[self.places@[k]@[j] as int]@) == k
            } by {
                if k == key {
                    if j < old_bucket.len() {
                        assert(before.places@[key]@[j] < before.hashes@.len());
                    }
                } else {
                    assert(before.places@[k]@[j] < before.hashes@.len());
                }
            }
            assert forall|p: int| 0 <= p < self.hashes@.len() implies {
                &&& self.places@.contains_key(short_key((#[trigger] self.hashes@[p])@) as u64)
                &&& self.places@[short_key(self.hashes@[p]@) as u64]@.contains(p as usize)
            } by {
                lemma_short_key_bound(self.hashes@[p]@);
                if p < place {
                    let k = short_key(before.hashes@[p]@) as u64;
                    assert(self.hashes@[p] == before.hashes@[p]);
                    assert(before.places@[k]@.contains(p as usize));
                    if k == key {
                        let j = choose|j: int| 0 <= j < old_bucket.len() && old_bucket[j] == p as usize;
                        assert(bucket@[j] == p);
                    }
                } else {
                    assert(bucket@[old_bucket.len() as int] == place);
                }
            }
            assert forall|k: u64| self.places@.contains_key(k) implies ascending(
                (#[trigger] self.places@[k])@,
            ) by {
                if k != key {
                    assert(ascending(before.places@[k]@));
                }
            }
        }
    }

    /// The lowest place of `hash` in the list.
    pub fn find(&self, hash: &[u8]) -> (place: Option<usize>)
        requires
            self.wf(),
        ensures
            match place {
                Some(h) => height_of(self@, hash@) == Some(h as int),
                None => height_of(self@, hash@) is None,
            },
            place is None <==> !self@.contains(hash@),
    {
        let key = key_of(hash);
        let bucket = match self.places.get(&key) {
            Some(bucket) => bucket,
            None => {
                proof {
                    assert forall|p: int| 0 <= p < self@.len() implies self@[p] != hash@ by {
                        lemma_short_key_bound(self.hashes@[p]@);
                        assert(self.places@.contains_key(short_key(self.hashes@[p]@) as u64));
                    }
                    lemma_height_of_contains(self@, hash@);
                }
                return None;
            },
        };
        let n: usize = self.hashes.len();
        let mut j: usize = 0;
        while j < bucket.len()
            invariant
                self.wf(),
                n == self.hashes@.len(),
                key == short_key(hash@),
                self.places@.contains_key(key),
                *bucket == self.places@[key],
                j <= bucket@.len(),
                forall|i: int| 0 <= i < j ==> self@[(#[trigger] bucket@[i]) as int] != hash@,
            decreases bucket@.len() - j,
        {
            let p: usize = bucket[j];
            assert(self.places@[key]@[j as int] < self.hashes@.len());
            if same_bytes(self.hashes[p].as_slice(), hash) {
                proof {
                    assert forall|k: int| 0 <= k < p implies self@[k] != hash@ by {
                        if self@[k] == hash@ {
                            lemma_short_key_bound(self.hashes@[k]@);
                            assert(self.hashes@[k]@ == hash@);
                            assert(self.places@[short_key(self.hashes@[k]@) as u64]@.contains(
                                k as usize,
                            ));
                            let i = choose|i: int| 0 <= i < bucket@.len() && bucket@[i] == k as usize;
                            assert(ascending(bucket@));
                            if i >= j {
                                if i > j {
                                    assert(bucket@[j as int] < bucket@[i]);
                                }
                            } else {
                                assert(self@[bucket@[i] as int] != hash@);
                            }
                        }
                    }
                    lemma_first_at_unique(self@, hash@, p as int);
                }
                return Some(p);
            }
            j = j + 1;
        }
        proof {
            assert forall|p: int| 0 <= p < self@.len() implies self@[p] != hash@ by {
                if self@[p] == hash@ {
                    lemma_short_key_bound(self.hashes@[p]@);
                    assert(self.hashes@[p]@ == hash@);
                    assert(self.places@[short_key(self.hashes@[p]@) as u64]@.contains(p as usize));
                    let i = choose|i: int| 0 <= i < bucket@.len() && bucket@[i] == p as usize;
                    assert(self@[bucket@[i] as int] != hash@);
                }
            }
            lemma_height_of_contains(self@, hash@);
        }
        None
    }

    /// The list of these hashes, in this order.
    pub fn from_vec(hashes: Vec<Vec<u8>>) -> (list: HashList)
        ensures
            list.wf(),
            list@ == views(hashes@),
    {
        let mut list = HashList::new();
        let mut i: usize = 0;
        while i < hashes.len()
            invariant
                i <= hashes@.len(),
                list.wf(),
                list@ == views(hashes@).subrange(0, i as int),
            decreases hashes@.len() - i,
        {
            list.push(hashes[i].clone());
            assert(views(hashes@).subrange(0, i + 1) =~= views(hashes@).subrange(0, i as int).push(
                hashes@[i as int]@,
            ));
            i = i + 1;
        }
        assert(views(hashes@).subrange(0, i as int) =~= views(hashes@));
        list
    }
}

} // verus!
