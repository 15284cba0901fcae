use crate::feeder::Feeder;
use crate::pipeline::worker::PipelineId;
use crate::pipeline::Pipeline;
use crate::preroll::ids_of;
use crate::preroll::lemma_sweep_keeps_apart;
use crate::preroll::swept;
use crate::preroll::Preroll;
use crate::preroll::Verdict;
use crate::queue::outside;
use crate::queue::paths_of;
use crate::queue::under;
use crate::queue::ReadyQueue;
use crate::roots::RootSet;
use vstd::prelude::*;

verus! {

/// Taking one element out of a sequence without duplicates leaves none.
proof fn lemma_remove_apart(ids: Seq<u64>, i: int)
    requires
        ids.no_duplicates(),
        0 <= i < ids.len(),
    ensures
        ids.remove(i).no_duplicates(),
{
    ids.remove_ensures(i);
    let rest = ids.remove(i);
    assert forall|a: int, b: int| 0 <= a < rest.len() && 0 <= b < rest.len() && a != b implies rest[a]
        != rest[b] by {
        let x = if a < i {
            a
        } else {
            a + 1
        };
        let y = if b < i {
            b
        } else {
            b + 1
        };
        assert(rest[a] == ids[x] && rest[b] == ids[y]);
    }
}

/// Filtering engines that follow others keeps every name apart, and every
/// name that stays was there before.
proof fn lemma_filter_apart<T>(
    before: Seq<Pipeline<T>>,
    queue: Seq<Pipeline<T>>,
    pred: spec_fn(Pipeline<T>) -> bool,
)
    requires
        ids_of(before + queue).no_duplicates(),
    ensures
        ids_of(before + queue.filter(pred)).no_duplicates(),
        forall|k: int|
            0 <= k < queue.filter(pred).len() ==> ids_of(queue).contains(
                #[trigger] queue.filter(pred)[k].id.0,
            ),
    decreases queue.len(),
{
    let all = ids_of(before + queue);
    if queue.len() == 0 {
        queue.lemma_filter_len(pred);
        assert(before + queue.filter(pred) =~= before + queue);
    } else {
        let rest = queue.drop_last();
        let last = queue.last();
        assert(rest.push(last) =~= queue);
        rest.lemma_filter_push(last, pred);
        assert(ids_of(before + rest) =~= all.take(all.len() - 1));
        lemma_filter_apart(before, rest, pred);
        let kept = rest.filter(pred);
        assert forall|k: int| 0 <= k < queue.filter(pred).len() implies ids_of(queue).contains(
            #[trigger] queue.filter(pred)[k].id.0,
        ) by {
            if k < kept.len() {
                let j = choose|j: int| 0 <= j < ids_of(rest).len() && ids_of(rest)[j] == kept[k].id.0;
                assert(ids_of(queue)[j] == kept[k].id.0);
            } else {
                assert(ids_of(queue)[queue.len() - 1] == last.id.0);
            }
        }
        if pred(last) {
            let now = ids_of(before + kept.push(last));
            let was = ids_of(before + kept);
            assert(now =~= was.push(last.id.0));
            assert forall|a: int, b: int| 0 <= a < now.len() && 0 <= b < now.len() && a
                != b implies now[a] != now[b] by {
                let top = now.len() - 1;
                if a < top && b < top {
                    assert(was[a] != was[b]);
                } else {
                    let other = if a < top {
                        a
                    } else {
                        b
                    };
                    // The name at `other` was there before, at another place than the last.
                    if other < before.len() {
                        assert(all[other] == was[other]);
                    } else {
                        let k = other - before.len();
                        assert(was[other] == kept[k].id.0);
                        let j = choose|j: int|
                            0 <= j < ids_of(rest).len() && ids_of(rest)[j] == kept[k].id.0;
                        assert(all[before.len() + j] == was[other]);
                    }
                    assert(all[all.len() - 1] == last.id.0);
                }
            }
        }
    }
}

/// The working set and the ready queue together. Every engine in them has
/// a name of its own, so that no engine is in both, nor twice in either.
pub struct Supply<T> {
    preroll: Preroll<T>,
    ready: ReadyQueue<T>,
}

impl<T> Supply<T> {
    /// The engines under preroll, in the order they will be looked at.
    pub closed spec fn working(&self) -> Seq<Pipeline<T>> {
        self.preroll@
    }

    /// The engines that are ready, oldest first.
    pub closed spec fn queued(&self) -> Seq<Pipeline<T>> {
        self.ready@
    }

    /// The most engines under preroll.
    pub closed spec fn preroll_capacity(&self) -> usize {
        self.preroll.capacity()
    }

    /// The most engines that are ready.
    pub closed spec fn ready_capacity(&self) -> usize {
        self.ready.capacity()
    }

    /// Both parts are within their capacities, and no name occurs twice.
    pub open spec fn wf(&self) -> bool {
        &&& self.working().len() <= self.preroll_capacity()
        &&& self.queued().len() <= self.ready_capacity()
        &&& ids_of(self.working() + self.queued()).no_duplicates()
    }

    /// An empty supply with the given capacities.
    pub fn new(preroll_capacity: usize, ready_capacity: usize) -> (supply: Supply<T>)
        ensures
            supply.wf(),
            supply.working() == Seq::<Pipeline<T>>::empty(),
            supply.queued() == Seq::<Pipeline<T>>::empty(),
            supply.preroll_capacity() == preroll_capacity,
            supply.ready_capacity() == ready_capacity,
    {
        Supply { preroll: Preroll::new(preroll_capacity), ready: ReadyQueue::new(ready_capacity) }
    }

    /// The number of engines under preroll.
    pub fn working_len(&self) -> (n: usize)
        ensures
            n == self.working().len(),
    {
        self.preroll.len()
    }

    /// The number of engines that are ready.
    pub fn ready_len(&self) -> (n: usize)
        ensures
            n == self.queued().len(),
    {
        self.ready.len()
    }

    /// The most engines that are ready.
    pub fn ready_limit(&self) -> (n: usize)
        ensures
            n == self.ready_capacity(),
    {
        self.ready.limit()
    }

    /// How many more engines the working set takes.
    pub fn room(&self) -> (n: usize)
        requires
            self.wf(),
        ensures
            n == self.preroll_capacity() - self.working().len(),
    {
        self.preroll.room()
    }

    /// The engine under preroll at place `index`.
    pub fn working_at(&self, index: usize) -> (pipeline: &Pipeline<T>)
        requires
            index < self.working().len(),
        ensures
            *pipeline == self.working()[index as int],
    {
        self.preroll.get(index)
    }

    /// The ready engine at place `index`, counted from the oldest.
    pub fn queued_at(&self, index: usize) -> (pipeline: &Pipeline<T>)
        requires
            index < self.queued().len(),
        ensures
            *pipeline == self.queued()[index as int],
    {
        self.ready.get(index)
    }

    /// Whether an engine named `id` is under preroll or ready.
    pub fn holds(&self, id: PipelineId) -> (r: bool)
        ensures
            r == ids_of(self.working() + self.queued()).contains(id.0),
    {
        let ghost all = ids_of(self.working() + self.queued());
        let mut i: usize = 0;
        while i < self.preroll.len()
            invariant
                i <= self.working().len(),
                all == ids_of(self.working() + self.queued()),
                forall|j: int| 0 <= j < i ==> all[j] != id.0,
            decreases self.working().len() - i,
        {
            if self.preroll.get(i).id.0 == id.0 {
                assert(all[i as int] == id.0);
                return true;
            }
            i += 1;
        }
        let count = self.preroll.len();
        let mut k: usize = 0;
        while k < self.ready.len()
            invariant
                k <= self.queued().len(),
                count == self.working().len(),
                all == ids_of(self.working() + self.queued()),
                forall|j: int| 0 <= j < count + k ==> all[j] != id.0,
            decreases self.queued().len() - k,
        {
            if self.ready.get(k).id.0 == id.0 {
                assert(all[count + k] == id.0);
                return true;
            }
            k += 1;
        }
        false
    }

    /// Takes a new engine into the working set. The engine is handed back
    /// and nothing changes where the working set is full or an engine of
    /// that name is held already.
    pub fn accept(&mut self, pipeline: Pipeline<T>) -> (refused: Option<Pipeline<T>>)
        requires
            old(self).wf(),
        ensures
            final(self).wf(),
            final(self).preroll_capacity() == old(self).preroll_capacity(),
            final(self).ready_capacity() == old(self).ready_capacity(),
            final(self).queued() == old(self).queued(),
            if old(self).working().len() < old(self).preroll_capacity() && !ids_of(
                old(self).working() + old(self).queued(),
            ).contains(pipeline.id.0) {
                refused.is_none() && final(self).working() == old(self).working().push(pipeline)
            } else {
                refused == Some(pipeline) && final(self).working() == old(self).working()
            },
    {
        if self.holds(pipeline.id) {
            return Some(pipeline);
        }
        proof {
            let was = ids_of(self.working() + self.queued());
            let now = ids_of(self.working().push(pipeline) + self.queued());
            let at = self.working().len() as int;
            assert(now =~= was.insert(at, pipeline.id.0));
            assert forall|a: int, b: int| 0 <= a < now.len() && 0 <= b < now.len() && a
                != b implies now[a] != now[b] by {
                let x = if a < at {
                    a
                } else {
                    a - 1
                };
                let y = if b < at {
                    b
                } else {
                    b - 1
                };
                if a != at && b != at {
                    assert(now[a] == was[x] && now[b] == was[y]);
                } else if a == at {
                    assert(now[b] == was[y]);
                } else {
                    assert(now[a] == was[x]);
                }
            }
        }
        self.preroll.accept(pipeline)
    }

    /// Looks at every engine under preroll once, in order, the engine at
    /// place `i` with the verdict `verdicts[i]`: failed engines are handed
    /// out, complete ones become ready as long as there is room, and the
    /// others stay under preroll.
    pub fn sweep(&mut self, verdicts: &Vec<Verdict>) -> (failed: Vec<Pipeline<T>>)
        requires
            old(self).wf(),
            verdicts.len() == old(self).working().len(),
        ensures
            final(self).wf(),
            final(self).preroll_capacity() == old(self).preroll_capacity(),
            final(self).ready_capacity() == old(self).ready_capacity(),
            final(self).working() == swept(
                old(self).working(),
                verdicts@,
                old(self).queued(),
                old(self).ready_capacity() as nat,
            ).held,
            final(self).queued() == swept(
                old(self).working(),
                verdicts@,
                old(self).queued(),
                old(self).ready_capacity() as nat,
            ).ready,
            failed@ == swept(
                old(self).working(),
                verdicts@,
                old(self).queued(),
                old(self).ready_capacity() as nat,
            ).failed,
    {
        proof {
            lemma_sweep_keeps_apart(
                self.working(),
                verdicts@,
                self.queued(),
                self.ready_capacity() as nat,
            );
        }
        self.preroll.sweep(&mut self.ready, verdicts)
    }

    /// Withdraws the oldest ready engine, if there is one.
    pub fn pop(&mut self) -> (pipeline: Option<Pipeline<T>>)
        requires
            old(self).wf(),
        ensures
            final(self).wf(),
            final(self).preroll_capacity() == old(self).preroll_capacity(),
            final(self).ready_capacity() == old(self).ready_capacity(),
            final(self).working() == old(self).working(),
            old(self).queued().len() == 0 ==> pipeline.is_none() && final(self).queued() == old(self).queued(),
            old(self).queued().len() > 0 ==> pipeline == Some(old(self).queued()[0]) && final(self).queued() == old(self).queued().drop_first(),
    {
        proof {
            if self.queued().len() > 0 {
                let all = ids_of(self.working() + self.queued());
                lemma_remove_apart(all, self.working().len() as int);
                assert(ids_of(self.working() + self.queued().drop_first()) =~= all.remove(
                    self.working().len() as int,
                ));
            }
        }
        self.ready.pop()
    }

    /// Takes the ready engine at place `index` out; an index past the end
    /// changes nothing.
    pub fn remove(&mut self, index: usize) -> (pipeline: Option<Pipeline<T>>)
        requires
            old(self).wf(),
        ensures
            final(self).wf(),
            final(self).preroll_capacity() == old(self).preroll_capacity(),
            final(self).ready_capacity() == old(self).ready_capacity(),
            final(self).working() == old(self).working(),
            index >= old(self).queued().len() ==> pipeline.is_none() && final(self).queued()
                == old(self).queued(),
            index < old(self).queued().len() ==> pipeline == Some(
                old(self).queued()[index as int],
            ) && final(self).queued() == old(self).queued().remove(index as int),
    {
        proof {
            if index < self.queued().len() {
                let all = ids_of(self.working() + self.queued());
                lemma_remove_apart(all, self.working().len() + index);
                assert(ids_of(self.working() + self.queued().remove(index as int)) =~= all.remove(
                    self.working().len() + index,
                ));
            }
        }
        self.ready.remove(index)
    }

    /// Empties the ready queue and hands out what it held, oldest first.
    pub fn clear(&mut self) -> (dropped: Vec<Pipeline<T>>)
        requires
            old(self).wf(),
        ensures
            final(self).wf(),
            final(self).preroll_capacity() == old(self).preroll_capacity(),
            final(self).ready_capacity() == old(self).ready_capacity(),
            final(self).working() == old(self).working(),
            final(self).queued() == Seq::<Pipeline<T>>::empty(),
            dropped@ == old(self).queued(),
    {
        proof {
            let all = ids_of(self.working() + self.queued());
            assert(ids_of(self.working() + Seq::<Pipeline<T>>::empty()) =~= all.take(
                self.working().len() as int,
            ));
        }
        self.ready.clear()
    }

    /// The change of the root set: evicts every ready engine whose file
    /// lies under no root in use, counts its file out and frees its place
    /// in the guard. The engines that stay are untouched and keep their
    /// order.
    pub fn evict_disabled(&mut self, feeder: &mut Feeder, roots: &RootSet) -> (evicted: Vec<
        Pipeline<T>,
    >)
        requires
            old(self).wf(),
            old(feeder).wf(),
        ensures
            final(self).wf(),
            final(feeder).wf(),
            final(self).preroll_capacity() == old(self).preroll_capacity(),
            final(self).ready_capacity() == old(self).ready_capacity(),
            final(self).working() == old(self).working(),
            final(self).queued() == old(self).queued().filter(under(roots.enabled())),
            evicted@ == old(self).queued().filter(outside(roots.enabled())),
            final(feeder).timeout() == old(feeder).timeout(),
            final(feeder).cache() == old(feeder).cache().released_all(paths_of(evicted@)),
            final(feeder).stats() == old(feeder).stats().removed_all(paths_of(evicted@)),
    {
        proof {
            lemma_filter_apart(self.working(), self.queued(), under(roots.enabled()));
        }
        crate::feeder::evict_disabled(&mut self.ready, feeder, roots)
    }
}

/// No engine in two places: in a well-formed supply no engine under
/// preroll has the name of a ready one, and no two engines of either part
/// share a name.
pub proof fn lemma_apart<T>(supply: Supply<T>)
    requires
        supply.wf(),
    ensures
        forall|i: int, j: int|
            0 <= i < supply.working().len() && 0 <= j < supply.queued().len()
                ==> #[trigger] supply.working()[i].id != #[trigger] supply.queued()[j].id,
        forall|i: int, j: int|
            0 <= i < j < supply.working().len() ==> #[trigger] supply.working()[i].id
                != #[trigger] supply.working()[j].id,
        forall|i: int, j: int|
            0 <= i < j < supply.queued().len() ==> #[trigger] supply.queued()[i].id
                != #[trigger] supply.queued()[j].id,
{
    let all = ids_of(supply.working() + supply.queued());
    let n = supply.working().len() as int;
    assert forall|i: int, j: int|
        0 <= i < supply.working().len() && 0 <= j < supply.queued().len()
        implies #[trigger] supply.working()[i].id != #[trigger] supply.queued()[j].id by {
        assert(all[i] == supply.working()[i].id.0);
        assert(all[n + j] == supply.queued()[j].id.0);
    }
    assert forall|i: int, j: int| 0 <= i < j < supply.working().len()
        implies #[trigger] supply.working()[i].id != #[trigger] supply.working()[j].id by {
        assert(all[i] == supply.working()[i].id.0);
        assert(all[j] == supply.working()[j].id.0);
    }
    assert forall|i: int, j: int| 0 <= i < j < supply.queued().len()
        implies #[trigger] supply.queued()[i].id != #[trigger] supply.queued()[j].id by {
        assert(all[n + i] == supply.queued()[i].id.0);
        assert(all[n + j] == supply.queued()[j].id.0);
    }
}

} // verus!
