use crate::pipeline::Pipeline;
use crate::roots::covered;
use crate::roots::RootSet;
use std::collections::VecDeque;
use vstd::prelude::*;

verus! {

/// The test that an engine's file lies under one of `roots`.
pub open spec fn under<T>(roots: Seq<Seq<char>>) -> spec_fn(Pipeline<T>) -> bool {
    |pipeline: Pipeline<T>| covered(roots, pipeline.path@)
}

/// The test that an engine's file lies under none of `roots`.
pub open spec fn outside<T>(roots: Seq<Seq<char>>) -> spec_fn(Pipeline<T>) -> bool {
    |pipeline: Pipeline<T>| !covered(roots, pipeline.path@)
}

/// The files that the engines `pipelines` play, in their order.
pub open spec fn paths_of<T>(pipelines: Seq<Pipeline<T>>) -> Seq<Seq<char>> {
    pipelines.map_values(|pipeline: Pipeline<T>| pipeline.path@)
}

/// Eviction sorts the queue by the roots in use: an engine under one of
/// them stays, an engine under none of them is evicted, and nothing else
/// is in either part.
pub proof fn lemma_retain_sorts<T>(queue: Seq<Pipeline<T>>, roots: Seq<Seq<char>>)
    ensures
        forall|i: int|
            0 <= i < queue.len() && covered(roots, (#[trigger] queue[i]).path@) ==> queue.filter(
                under(roots),
            ).contains(queue[i]),
        forall|i: int|
            0 <= i < queue.len() && !covered(roots, (#[trigger] queue[i]).path@) ==> queue.filter(
                outside(roots),
            ).contains(queue[i]),
        forall|pipeline: Pipeline<T>| #[trigger]
            queue.filter(under(roots)).contains(pipeline) ==> queue.contains(pipeline) && covered(
                roots,
                pipeline.path@,
            ),
        forall|pipeline: Pipeline<T>| #[trigger]
            queue.filter(outside(roots)).contains(pipeline) ==> queue.contains(pipeline)
                && !covered(roots, pipeline.path@),
        queue.filter(under(roots)).len() + queue.filter(outside(roots)).len() == queue.len(),
    decreases queue.len(),
{
    let keep = under::<T>(roots);
    let drop = outside::<T>(roots);
    assert forall|i: int| 0 <= i < queue.len() && covered(roots, (#[trigger] queue[i]).path@) implies queue.filter(
        keep,
    ).contains(queue[i]) by {
        queue.lemma_filter_contains(keep, i);
    }
    assert forall|i: int| 0 <= i < queue.len() && !covered(roots, (#[trigger] queue[i]).path@) implies queue.filter(
        drop,
    ).contains(queue[i]) by {
        queue.lemma_filter_contains(drop, i);
    }
    assert forall|pipeline: Pipeline<T>| #[trigger]
        queue.filter(keep).contains(pipeline) implies queue.contains(pipeline) && covered(
        roots,
        pipeline.path@,
    ) by {
        let k = choose|k: int| 0 <= k < queue.filter(keep).len() && queue.filter(keep)[k] == pipeline;
        queue.lemma_filter_pred(keep, k);
        queue.lemma_filter_contains_rev(keep, pipeline);
    }
    assert forall|pipeline: Pipeline<T>| #[trigger]
        queue.filter(drop).contains(pipeline) implies queue.contains(pipeline) && !covered(
        roots,
        pipeline.path@,
    ) by {
        let k = choose|k: int| 0 <= k < queue.filter(drop).len() && queue.filter(drop)[k] == pipeline;
        queue.lemma_filter_pred(drop, k);
        queue.lemma_filter_contains_rev(drop, pipeline);
    }
    lemma_filter_split(queue, keep, drop);
}

/// A test and its opposite split a sequence into two parts that together
/// are as long as the whole.
proof fn lemma_filter_split<A>(s: Seq<A>, keep: spec_fn(A) -> bool, drop: spec_fn(A) -> bool)
    requires
        forall|a: A| #[trigger] keep(a) == !drop(a),
    ensures
        s.filter(keep).len() + s.filter(drop).len() == s.len(),
    decreases s.len(),
{
    if s.len() == 0 {
        s.lemma_filter_len(keep);
        s.lemma_filter_len(drop);
    } else {
        let rest = s.drop_last();
        lemma_filter_split(rest, keep, drop);
        assert(rest.push(s.last()) =~= s);
        rest.lemma_filter_push(s.last(), keep);
        rest.lemma_filter_push(s.last(), drop);
    }
}

/// Filtering one element more: the filtered prefix grows by that element
/// where the test holds of it, and stays as it is where not.
proof fn lemma_filter_take<A>(s: Seq<A>, i: int, pred: spec_fn(A) -> bool)
    requires
        0 <= i < s.len(),
    ensures
        s.take(i + 1).filter(pred) == if pred(s[i]) {
            s.take(i).filter(pred).push(s[i])
        } else {
            s.take(i).filter(pred)
        },
{
    assert(s.take(i + 1) =~= s.take(i).push(s[i]));
    s.take(i).lemma_filter_push(s[i], pred);
}

/// The bounded first-in, first-out queue of engines that have finished
/// their preroll and wait for the front end.
pub struct ReadyQueue<T> {
    entries: VecDeque<Pipeline<T>>,
    capacity: usize,
}

impl<T> ReadyQueue<T> {
    /// The queued engines, oldest first.
    pub closed spec fn view(&self) -> Seq<Pipeline<T>> {
        self.entries@
    }

    /// The most engines the queue takes.
    pub closed spec fn capacity(&self) -> usize {
        self.capacity
    }

    /// The queue holds no more than its capacity.
    pub open spec fn wf(&self) -> bool {
        self@.len() <= self.capacity()
    }

    /// An empty queue that takes up to `capacity` engines.
    pub fn new(capacity: usize) -> (queue: ReadyQueue<T>)
        ensures
            queue.wf(),
            queue.capacity() == capacity,
            queue@ == Seq::<Pipeline<T>>::empty(),
    {
        ReadyQueue { entries: VecDeque::new(), capacity }
    }

    /// The number of queued engines.
    pub fn len(&self) -> (n: usize)
        ensures
            n == self@.len(),
    {
        self.entries.len()
    }

    /// The most engines the queue takes.
    pub fn limit(&self) -> (n: usize)
        ensures
            n == self.capacity(),
    {
        self.capacity
    }

    /// Whether the queue has reached its capacity.
    pub fn is_full(&self) -> (full: bool)
        ensures
            full == (self@.len() >= self.capacity()),
    {
        self.entries.len() >= self.capacity
    }

    /// The engine at place `index`, counted from the oldest.
    pub fn get(&self, index: usize) -> (pipeline: &Pipeline<T>)
        requires
            index < self@.len(),
        ensures
            *pipeline == self@[index as int],
    {
        &self.entries[index]
    }

    /// Queues an engine behind the others. A full queue takes nothing and
    /// hands the engine back.
    pub fn push(&mut self, pipeline: Pipeline<T>) -> (refused: Option<Pipeline<T>>)
        requires
            old(self).wf(),
        ensures
            final(self).wf(),
            final(self).capacity() == old(self).capacity(),
            old(self)@.len() < old(self).capacity() ==> refused.is_none() && final(self)@ == old(self)@.push(pipeline),
            old(self)@.len() >= old(self).capacity() ==> refused == Some(pipeline) && final(self)@
                == old(self)@,
    {
        if self.entries.len() < self.capacity {
            self.entries.push_back(pipeline);
            None
        } else {
            Some(pipeline)
        }
    }

    /// Withdraws the oldest engine, if there is one.
    pub fn pop(&mut self) -> (pipeline: Option<Pipeline<T>>)
        requires
            old(self).wf(),
        ensures
            final(self).wf(),
            final(self).capacity() == old(self).capacity(),
            old(self)@.len() == 0 ==> pipeline.is_none() && final(self)@ == old(self)@,
            old(self)@.len() > 0 ==> pipeline == Some(old(self)@[0]) && final(self)@ == old(self)@.drop_first(),
    {
        self.entries.pop_front()
    }

    /// Takes the engine at place `index` out of the queue; an index past the
    /// end changes nothing.
    pub fn remove(&mut self, index: usize) -> (pipeline: Option<Pipeline<T>>)
        requires
            old(self).wf(),
        ensures
            final(self).wf(),
            final(self).capacity() == old(self).capacity(),
            index >= old(self)@.len() ==> pipeline.is_none() && final(self)@ == old(self)@,
            index < old(self)@.len() ==> pipeline == Some(old(self)@[index as int]) && final(self)@ == old(self)@.remove(index as int),
    {
        self.entries.remove(index)
    }

    /// Empties the queue and hands out what it held, oldest first.
    pub fn clear(&mut self) -> (dropped: Vec<Pipeline<T>>)
        requires
            old(self).wf(),
        ensures
            final(self).wf(),
            final(self).capacity() == old(self).capacity(),
            final(self)@ == Seq::<Pipeline<T>>::empty(),
            dropped@ == old(self)@,
    {
        let mut dropped: Vec<Pipeline<T>> = Vec::new();
        let count = self.entries.len();
        let mut i: usize = 0;
        while i < count
            invariant
                i <= count,
                count == old(self)@.len(),
                self.capacity == old(self).capacity,
                self.entries@ == old(self)@.skip(i as int),
                dropped@ == old(self)@.take(i as int),
            decreases count - i,
        {
            let pipeline = self.entries.pop_front().unwrap();
            dropped.push(pipeline);
            i += 1;
            assert(self.entries@ =~= old(self)@.skip(i as int));
            assert(dropped@ =~= old(self)@.take(i as int));
        }
        assert(dropped@ =~= old(self)@);
        assert(self.entries@ =~= Seq::<Pipeline<T>>::empty());
        dropped
    }

    /// Evicts every engine whose file lies under no root in use. The engines
    /// that stay keep their order; the evicted ones are handed out, oldest
    /// first.
    pub fn retain_under(&mut self, roots: &RootSet) -> (evicted: Vec<Pipeline<T>>)
        requires
            old(self).wf(),
        ensures
            final(self).wf(),
            final(self).capacity() == old(self).capacity(),
            final(self)@ == old(self)@.filter(under(roots.enabled())),
            evicted@ == old(self)@.filter(outside(roots.enabled())),
    {
        let ghost before = self.entries@;
        let ghost keep = under::<T>(roots.enabled());
        let ghost drop = outside::<T>(roots.enabled());
        let mut evicted: Vec<Pipeline<T>> = Vec::new();
        let count = self.entries.len();
        let mut i: usize = 0;
        proof {
            before.take(0).lemma_filter_len(keep);
            before.take(0).lemma_filter_len(drop);
            assert(before.take(0).filter(keep) =~= Seq::<Pipeline<T>>::empty());
            assert(before.take(0).filter(drop) =~= Seq::<Pipeline<T>>::empty());
        }
        while i < count
            invariant
                i <= count,
                count == before.len(),
                before == old(self)@,
                keep == under::<T>(roots.enabled()),
                drop == outside::<T>(roots.enabled()),
                self.capacity == old(self).capacity,
                self.entries@ == before.skip(i as int) + before.take(i as int).filter(keep),
                evicted@ == before.take(i as int).filter(drop),
            decreases count - i,
        {
            let pipeline = self.entries.pop_front().unwrap();
            proof {
                lemma_filter_take(before, i as int, keep);
                lemma_filter_take(before, i as int, drop);
            }
            if roots.covers(pipeline.path.as_str()) {
                self.entries.push_back(pipeline);
            } else {
                evicted.push(pipeline);
            }
            i += 1;
            assert(self.entries@ =~= before.skip(i as int) + before.take(i as int).filter(keep));
        }
        proof {
            assert(before.take(count as int) =~= before);
            assert(self.entries@ =~= before.filter(keep));
            before.lemma_filter_len(keep);
        }
        evicted
    }
}

} // verus!
