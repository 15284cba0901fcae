use crate::roots::texts;
use crate::trusted::fx_set_clone;
use crate::trusted::fx_set_contains;
use crate::trusted::fx_set_insert;
use crate::trusted::fx_set_new;
use crate::trusted::fx_set_remove;
use crate::trusted::path_set;
use rustc_hash::FxBuildHasher;
use std::collections::HashSet;
use std::collections::VecDeque;
use vstd::prelude::*;

verus! {

/// The number of paths a cache remembers unless told otherwise.
pub const CACHE_SIZE: usize = 1000;

/// What a cache holds: the paths that are outstanding, the order in which
/// they were taken in (oldest first), and how many it may hold.
pub struct Cache {
    pub outstanding: Set<Seq<char>>,
    pub order: Seq<Seq<char>>,
    pub capacity: nat,
}

/// The order without the place of `path`.
pub open spec fn without(order: Seq<Seq<char>>, path: Seq<char>) -> Seq<Seq<char>> {
    if order.contains(path) {
        order.remove(order.index_of(path))
    } else {
        order
    }
}

impl Cache {
    /// The order is within the capacity, and it holds the outstanding
    /// paths and nothing else, each once.
    pub open spec fn wf(self) -> bool {
        &&& self.capacity > 0
        &&& self.order.len() <= self.capacity
        &&& self.order.no_duplicates()
        &&& self.order.to_set() == self.outstanding
    }

    /// A cache that holds nothing.
    pub open spec fn fresh(capacity: nat) -> Cache {
        Cache { outstanding: Set::empty(), order: Seq::empty(), capacity }
    }

    /// Whether the cache is full, so that taking in one more path gives up
    /// the oldest.
    pub open spec fn is_full(self) -> bool {
        self.order.len() >= self.capacity
    }

    /// The cache after its oldest path was given up, should the order have
    /// outgrown the capacity.
    pub open spec fn trimmed(self) -> Cache {
        if self.order.len() > self.capacity {
            Cache {
                outstanding: self.outstanding.remove(self.order[0]),
                order: self.order.drop_first(),
                capacity: self.capacity,
            }
        } else {
            self
        }
    }

    /// The cache after `path` was released: it is outstanding no more and
    /// its place is free.
    pub open spec fn released(self, path: Seq<char>) -> Cache {
        Cache {
            outstanding: self.outstanding.remove(path),
            order: without(self.order, path),
            capacity: self.capacity,
        }
    }

    /// The cache after `path` was offered: an outstanding path is released;
    /// any other path becomes outstanding and takes the newest place, for
    /// which a full cache gives up its oldest path.
    pub open spec fn toggled(self, path: Seq<char>) -> Cache {
        if self.outstanding.contains(path) {
            self.released(path)
        } else {
            Cache {
                outstanding: self.outstanding.insert(path),
                order: self.order.push(path),
                capacity: self.capacity,
            }.trimmed()
        }
    }

    /// The cache after each of `paths` was offered in turn.
    pub open spec fn toggled_all(self, paths: Seq<Seq<char>>) -> Cache
        decreases paths.len(),
    {
        if paths.len() == 0 {
            self
        } else {
            self.toggled_all(paths.drop_last()).toggled(paths.last())
        }
    }

    /// The cache after each of `paths` was released.
    pub open spec fn released_all(self, paths: Seq<Seq<char>>) -> Cache
        decreases paths.len(),
    {
        if paths.len() == 0 {
            self
        } else {
            self.released_all(paths.drop_last()).released(paths.last())
        }
    }
}

/// In an order without duplicates, the place of a path is the one place
/// that holds it, and the order without that place holds every other path
/// and not this one.
proof fn lemma_without(order: Seq<Seq<char>>, path: Seq<char>, i: int)
    requires
        order.no_duplicates(),
        0 <= i < order.len(),
        order[i] == path,
    ensures
        order.index_of(path) == i,
        without(order, path) == order.remove(i),
        without(order, path).no_duplicates(),
        without(order, path).to_set() == order.to_set().remove(path),
{
    let k = order.index_of(path);
    assert(order.contains(path));
    assert(0 <= k < order.len() && order[k] == path);
    let rest = order.remove(i);
    order.remove_ensures(i);
    assert forall|p: Seq<char>| rest.to_set().contains(p) == order.to_set().remove(path).contains(
        p,
    ) by {
        if rest.to_set().contains(p) {
            let j = choose|j: int| 0 <= j < rest.len() && rest[j] == p;
            if j < i {
                assert(order[j] == p);
            } else {
                assert(order[j + 1] == p);
            }
        }
        if order.to_set().remove(path).contains(p) {
            let j = choose|j: int| 0 <= j < order.len() && order[j] == p;
            if j < i {
                assert(rest[j] == p);
            } else {
                assert(rest[j - 1] == p);
            }
        }
    }
    assert(rest.to_set() =~= order.to_set().remove(path));
}

/// A release leaves a well-formed cache well-formed.
pub proof fn lemma_released_wf(cache: Cache, path: Seq<char>)
    requires
        cache.wf(),
    ensures
        cache.released(path).wf(),
        cache.released(path).capacity == cache.capacity,
{
    if cache.order.contains(path) {
        let i = cache.order.index_of(path);
        lemma_without(cache.order, path, i);
    } else {
        assert(cache.outstanding.remove(path) =~= cache.outstanding);
    }
}

/// An offer leaves a well-formed cache well-formed, and its answer tells
/// what the cache holds afterwards: a path that was taken in is
/// outstanding, and a path that was dropped is not.
pub proof fn lemma_toggled_wf(cache: Cache, path: Seq<char>)
    requires
        cache.wf(),
    ensures
        cache.toggled(path).wf(),
        cache.toggled(path).capacity == cache.capacity,
        cache.toggled(path).outstanding.contains(path) == !cache.outstanding.contains(path),
{
    let after = cache.toggled(path);
    if cache.outstanding.contains(path) {
        lemma_released_wf(cache, path);
    } else {
        let grown = cache.order.push(path);
        assert(grown.no_duplicates()) by {
            assert forall|i: int, j: int|
                0 <= i < grown.len() && 0 <= j < grown.len() && i != j implies grown[i]
                != grown[j] by {
                if i < cache.order.len() && j < cache.order.len() {
                } else if i < cache.order.len() {
                    assert(cache.order.to_set().contains(cache.order[i]));
                } else {
                    assert(cache.order.to_set().contains(cache.order[j]));
                }
            }
        }
        assert(grown.to_set() =~= cache.outstanding.insert(path)) by {
            assert forall|p: Seq<char>| grown.to_set().contains(p) == cache.outstanding.insert(
                path,
            ).contains(p) by {
                if grown.to_set().contains(p) {
                    let k = choose|k: int| 0 <= k < grown.len() && grown[k] == p;
                    if k < cache.order.len() {
                        assert(cache.order.to_set().contains(cache.order[k]));
                    }
                }
                if cache.outstanding.contains(p) {
                    let k = choose|k: int| 0 <= k < cache.order.len() && cache.order[k] == p;
                    assert(grown[k] == p);
                }
                if p == path {
                    assert(grown[grown.len() - 1] == p);
                }
            }
        }
        if grown.len() > cache.capacity {
            lemma_without(grown, grown[0], 0);
            assert(grown.remove(0) =~= grown.drop_first());
            assert(grown[0] == cache.order[0]);
            assert(cache.order.to_set().contains(cache.order[0]));
        }
    }
}

/// The bound: a well-formed cache has as many paths outstanding as its
/// order is long, never more than its capacity.
pub proof fn lemma_bounded(cache: Cache)
    requires
        cache.wf(),
    ensures
        cache.outstanding.finite(),
        cache.outstanding.len() == cache.order.len(),
        cache.outstanding.len() <= cache.capacity,
{
    cache.order.unique_seq_to_set();
    cache.order.lemma_cardinality_of_set();
}

/// The cycle of offers: a path that is not outstanding is taken in by a
/// first offer, dropped by a second, and taken in again by a third.
pub proof fn lemma_toggle_cycle(cache: Cache, path: Seq<char>)
    requires
        cache.wf(),
        !cache.outstanding.contains(path),
    ensures
        cache.toggled(path).outstanding.contains(path),
        !cache.toggled(path).toggled(path).outstanding.contains(path),
        cache.toggled(path).toggled(path).toggled(path).outstanding.contains(path),
{
    lemma_toggled_wf(cache, path);
    lemma_toggled_wf(cache.toggled(path), path);
    lemma_toggled_wf(cache.toggled(path).toggled(path), path);
}

/// An offer touches no path but the one offered, with one exception: a
/// full cache that takes a path in gives up its oldest path. An offer that
/// drops a path gives up nothing else, and neither does an offer to a
/// cache that is not full.
pub proof fn lemma_toggle_spares(cache: Cache, path: Seq<char>, other: Seq<char>)
    requires
        cache.wf(),
        other != path,
    ensures
        cache.toggled(path).outstanding.contains(other) == (cache.outstanding.contains(other)
            && !(!cache.outstanding.contains(path) && cache.is_full() && other
            == cache.order[0])),
{
    lemma_toggled_wf(cache, path);
}

/// Offering distinct paths to a fresh cache keeps exactly the newest of
/// them outstanding, as many as the capacity: the oldest path is given up
/// when one more than the capacity has been offered, not before.
pub proof fn lemma_eviction_bound(capacity: nat, paths: Seq<Seq<char>>)
    requires
        capacity > 0,
        paths.no_duplicates(),
    ensures
        Cache::fresh(capacity).toggled_all(paths).wf(),
        Cache::fresh(capacity).toggled_all(paths).capacity == capacity,
        Cache::fresh(capacity).toggled_all(paths).order == newest(paths, capacity),
        Cache::fresh(capacity).toggled_all(paths).outstanding == newest(paths, capacity).to_set(),
    decreases paths.len(),
{
    let after = Cache::fresh(capacity).toggled_all(paths);
    if paths.len() == 0 {
        assert(after.order =~= newest(paths, capacity));
        assert(after.outstanding =~= newest(paths, capacity).to_set());
    } else {
        let rest = paths.drop_last();
        let last = paths.last();
        lemma_eviction_bound(capacity, rest);
        let before = Cache::fresh(capacity).toggled_all(rest);
        let kept = newest(rest, capacity);
        assert(!kept.to_set().contains(last)) by {
            if kept.contains(last) {
                let k = choose|k: int| 0 <= k < kept.len() && kept[k] == last;
                let shift = rest.len() - kept.len();
                assert(rest[k + shift] == last);
                assert(paths[k + shift] == paths[paths.len() - 1]);
            }
        }
        lemma_toggled_wf(before, last);
        assert(after.order =~= newest(paths, capacity));
    }
}

/// Releasing paths leaves none of them outstanding, touches no other path,
/// and keeps a well-formed cache well-formed.
pub proof fn lemma_released_all(cache: Cache, paths: Seq<Seq<char>>)
    ensures
        cache.released_all(paths).outstanding == cache.outstanding.difference(paths.to_set()),
        cache.released_all(paths).capacity == cache.capacity,
        cache.wf() ==> cache.released_all(paths).wf(),
    decreases paths.len(),
{
    if paths.len() == 0 {
        assert(cache.outstanding.difference(paths.to_set()) =~= cache.outstanding);
    } else {
        let rest = paths.drop_last();
        lemma_released_all(cache, rest);
        if cache.wf() {
            lemma_released_wf(cache.released_all(rest), paths.last());
        }
        assert forall|p: Seq<char>| paths.to_set().contains(p) == (rest.to_set().contains(p) || p
            == paths.last()) by {
            if paths.to_set().contains(p) {
                let k = choose|k: int| 0 <= k < paths.len() && paths[k] == p;
                if k < rest.len() {
                    assert(rest[k] == p);
                }
            }
            if rest.to_set().contains(p) {
                let k = choose|k: int| 0 <= k < rest.len() && rest[k] == p;
                assert(paths[k] == p);
            }
            if p == paths.last() {
                assert(paths[paths.len() - 1] == p);
            }
        }
        assert(cache.released_all(paths).outstanding =~= cache.outstanding.difference(
            paths.to_set(),
        ));
    }
}

/// The newest `capacity` of `paths`, or all of them where they are fewer.
pub open spec fn newest(paths: Seq<Seq<char>>, capacity: nat) -> Seq<Seq<char>> {
    if paths.len() <= capacity {
        paths
    } else {
        paths.skip(paths.len() - capacity)
    }
}

/// A bounded guard against handing out a path that is still outstanding.
/// It forgets its oldest path when it is full, whether or not the path is
/// still in use somewhere, so it may let a duplicate pass; it never holds
/// a path back for long.
#[derive(Debug)]
pub struct PathCache {
    set: HashSet<String, FxBuildHasher>,
    queue: VecDeque<String>,
    capacity: usize,
}

impl PathCache {
    /// What the cache holds.
    pub closed spec fn view(&self) -> Cache {
        Cache {
            outstanding: path_set(self.set),
            order: texts(self.queue@),
            capacity: self.capacity as nat,
        }
    }

    /// A cache that holds nothing and remembers up to `capacity` paths.
    pub fn with_capacity(capacity: usize) -> (cache: PathCache)
        requires
            capacity > 0,
        ensures
            cache@ == Cache::fresh(capacity as nat),
            cache@.wf(),
    {
        let cache = PathCache { set: fx_set_new(), queue: VecDeque::new(), capacity };
        assert(cache@.order =~= Seq::<Seq<char>>::empty());
        assert(cache@.order.to_set() =~= Set::<Seq<char>>::empty());
        cache
    }

    /// Whether `path` is outstanding.
    pub fn contains(&self, path: &str) -> (r: bool)
        ensures
            r == self@.outstanding.contains(path@),
    {
        fx_set_contains(&self.set, path)
    }

    /// Frees the place of a path that the order holds.
    fn drop_place(&mut self, path: &str)
        requires
            old(self)@.order.no_duplicates(),
            old(self)@.order.contains(path@),
        ensures
            final(self)@.order == without(old(self)@.order, path@),
            final(self)@.outstanding == old(self)@.outstanding,
            final(self)@.capacity == old(self)@.capacity,
    {
        let mut i: usize = 0;
        while i < self.queue.len()
            invariant
                *self == *old(self),
                self@.order.no_duplicates(),
                self@.order.contains(path@),
                i <= self.queue.len(),
                forall|j: int| 0 <= j < i ==> texts(self.queue@)[j] != path@,
            decreases self.queue.len() - i,
        {
            if self.queue[i].as_str().eq(path) {
                proof {
                    lemma_without(texts(self.queue@), path@, i as int);
                    assert(texts(self.queue@.remove(i as int)) =~= texts(self.queue@).remove(
                        i as int,
                    ));
                }
                self.queue.remove(i);
                return ;
            }
            i += 1;
        }
        proof {
            let k = choose|k: int| 0 <= k < self@.order.len() && self@.order[k] == path@;
            assert(texts(self.queue@)[k] != path@);
        }
    }

    /// Offers a path. A path that is not outstanding becomes outstanding
    /// and the answer is `true`: let it pass. A path that is outstanding is
    /// outstanding no more and the answer is `false`: drop this duplicate.
    pub fn insert_or_remove(&mut self, path: String) -> (fresh: bool)
        requires
            old(self)@.wf(),
        ensures
            fresh == !old(self)@.outstanding.contains(path@),
            final(self)@ == old(self)@.toggled(path@),
            final(self)@.wf(),
            final(self)@.outstanding.contains(path@) == fresh,
    {
        proof {
            lemma_toggled_wf(old(self)@, path@);
        }
        let contains_value = fx_set_contains(&self.set, path.as_str());
        if contains_value {
            fx_set_remove(&mut self.set, path.as_str());
            self.drop_place(path.as_str());
        } else {
            fx_set_insert(&mut self.set, path.clone());
            assert(texts(self.queue@.push(path)) =~= texts(self.queue@).push(path@));
            self.queue.push_back(path);
            if self.queue.len() > self.capacity {
                let ghost before = self.queue@;
                let value = self.queue.pop_front().unwrap();
                assert(texts(before.drop_first()) =~= texts(before).drop_first());
                fx_set_remove(&mut self.set, value.as_str());
            }
        }
        !contains_value
    }

    /// Releases a path: it is outstanding no more and its place is free.
    /// The answer says whether it was outstanding.
    pub fn remove(&mut self, path: &str) -> (held: bool)
        requires
            old(self)@.wf(),
        ensures
            held == old(self)@.outstanding.contains(path@),
            final(self)@ == old(self)@.released(path@),
            final(self)@.wf(),
    {
        proof {
            lemma_released_wf(old(self)@, path@);
        }
        let held = fx_set_remove(&mut self.set, path);
        if held {
            self.drop_place(path);
        }
        held
    }
}

impl Clone for PathCache {
    /// A cache that holds what this one holds.
    fn clone(&self) -> (copy: PathCache)
        ensures
            copy@ == self@,
    {
        let mut queue: VecDeque<String> = VecDeque::new();
        let mut i: usize = 0;
        while i < self.queue.len()
            invariant
                i <= self.queue.len(),
                queue@.len() == i,
                texts(queue@) == texts(self.queue@.take(i as int)),
            decreases self.queue.len() - i,
        {
            let path = self.queue[i].clone();
            proof {
                let grown = texts(queue@.push(path));
                let wanted = texts(self.queue@.take(i + 1));
                assert(path@ == self.queue@[i as int]@);
                assert(grown.len() == wanted.len());
                assert forall|j: int| 0 <= j < grown.len() implies grown[j] == wanted[j] by {
                    if j < i {
                        assert(texts(queue@)[j] == texts(self.queue@.take(i as int))[j]);
                    }
                }
                assert(grown =~= wanted);
            }
            queue.push_back(path);
            i += 1;
        }
        assert(self.queue@.take(i as int) =~= self.queue@);
        PathCache { set: fx_set_clone(&self.set), queue, capacity: self.capacity }
    }
}

impl Default for PathCache {
    /// A cache that holds nothing and remembers up to `CACHE_SIZE` paths.
    fn default() -> (cache: PathCache)
        ensures
            cache@ == Cache::fresh(CACHE_SIZE as nat),
            cache@.wf(),
    {
        PathCache::with_capacity(CACHE_SIZE)
    }
}

} // verus!
