use crate::pipeline::event::Event;
use crate::pipeline::state::EngineState;
use crate::pipeline::Pipeline;
use crate::queue::ReadyQueue;
use std::collections::VecDeque;
use vstd::prelude::*;
use vstd::multiset::lemma_multiset_empty_len;
use vstd::seq_lib::lemma_multiset_commutative;
use vstd::seq_lib::to_multiset_build;
use vstd::seq_lib::to_multiset_len;

verus! {

/// What a round of polling found out about one engine under preroll.
#[derive(Debug, Copy, Clone, PartialEq, Eq, Structural)]
pub enum Verdict {
    /// The engine raised an error and is given up.
    Failed,
    /// The engine is paused and buffered.
    Complete,
    /// The engine is still on its way.
    Pending,
}

/// Whether one of the events is an error.
pub open spec fn has_error(events: Seq<Event>) -> bool {
    exists|i: int| 0 <= i < events.len() && #[trigger] events[i] is Error
}

/// Whether the event tells that the engine has become paused.
pub open spec fn tells_paused(event: Event) -> bool {
    match event {
        Event::StateChanged { from, to } => to == EngineState::Paused,
        _ => false,
    }
}

/// Whether one of the events tells that the engine has become paused.
pub open spec fn has_paused(events: Seq<Event>) -> bool {
    exists|i: int| 0 <= i < events.len() && tells_paused(#[trigger] events[i])
}

/// The verdict on an engine that was or was not paused before the poll and
/// has raised `events` since: an error anywhere among them fails it; else it
/// is complete if it was paused already or has become paused; else it is
/// pending.
pub open spec fn judged(paused: bool, events: Seq<Event>) -> Verdict {
    if has_error(events) {
        Verdict::Failed
    } else if paused || has_paused(events) {
        Verdict::Complete
    } else {
        Verdict::Pending
    }
}

/// Judges one engine by the state it was last seen in and the events
/// drained from it.
pub fn judge(paused: bool, events: &Vec<Event>) -> (verdict: Verdict)
    ensures
        verdict == judged(paused, events@),
{
    let mut is_paused = paused;
    let mut i: usize = 0;
    while i < events.len()
        invariant
            i <= events.len(),
            !has_error(events@.take(i as int)),
            is_paused == (paused || has_paused(events@.take(i as int))),
        decreases events.len() - i,
    {
        proof {
            let before = events@.take(i as int);
            let after = events@.take(i + 1);
            assert(forall|j: int| 0 <= j < i ==> before[j] == after[j]);
            if has_paused(before) {
                let j = choose|j: int| 0 <= j < before.len() && tells_paused(#[trigger] before[j]);
                assert(tells_paused(after[j]));
            }
            if has_paused(after) {
                let j = choose|j: int| 0 <= j < after.len() && tells_paused(#[trigger] after[j]);
                if j < i {
                    assert(tells_paused(before[j]));
                }
            }
            if has_error(after) {
                let j = choose|j: int| 0 <= j < after.len() && #[trigger] after[j] is Error;
                if j < i {
                    assert(before[j] is Error);
                }
            }
            assert(after[i as int] == events@[i as int]);
        }
        match &events[i] {
            Event::Error(_) => {
                assert(events@[i as int] is Error);
                return Verdict::Failed;
            },
            Event::StateChanged { from: _, to } => {
                if *to == EngineState::Paused {
                    is_paused = true;
                }
            },
            Event::EndOfStream => {},
        }
        i += 1;
    }
    assert(events@.take(events.len() as int) =~= events@);
    if is_paused {
        Verdict::Complete
    } else {
        Verdict::Pending
    }
}

/// Where a sweep has put the engines it has looked at.
pub struct Sweep<T> {
    /// The engines kept under preroll, in the order they were looked at.
    pub held: Seq<Pipeline<T>>,
    /// The ready queue, with the engines the sweep has added at its end.
    pub ready: Seq<Pipeline<T>>,
    /// The engines given up.
    pub failed: Seq<Pipeline<T>>,
}

/// A sweep after one engine more: a failed engine is given up; a complete
/// one joins the ready queue where that has room and is held where it has
/// none; a pending one is held.
pub open spec fn settle<T>(
    so_far: Sweep<T>,
    pipeline: Pipeline<T>,
    verdict: Verdict,
    capacity: nat,
) -> Sweep<T> {
    match verdict {
        Verdict::Failed => Sweep { failed: so_far.failed.push(pipeline), ..so_far },
        Verdict::Complete => if so_far.ready.len() < capacity {
            Sweep { ready: so_far.ready.push(pipeline), ..so_far }
        } else {
            Sweep { held: so_far.held.push(pipeline), ..so_far }
        },
        Verdict::Pending => Sweep { held: so_far.held.push(pipeline), ..so_far },
    }
}

/// The outcome of a sweep over the engines `work`, the engine at place `i`
/// judged by `verdicts[i]`, with a ready queue that held `ready` and takes
/// `capacity`.
pub open spec fn swept<T>(
    work: Seq<Pipeline<T>>,
    verdicts: Seq<Verdict>,
    ready: Seq<Pipeline<T>>,
    capacity: nat,
) -> Sweep<T>
    decreases work.len(),
{
    if work.len() == 0 {
        Sweep { held: Seq::empty(), ready, failed: Seq::empty() }
    } else {
        settle(
            swept(work.drop_last(), verdicts, ready, capacity),
            work.last(),
            verdicts[work.len() - 1],
            capacity,
        )
    }
}

/// A sweep neither loses an engine nor makes a second of one: the engines
/// held, queued and given up afterwards are those that were under preroll
/// or queued before, each as often as before.
pub proof fn lemma_sweep_conserves<T>(
    work: Seq<Pipeline<T>>,
    verdicts: Seq<Verdict>,
    ready: Seq<Pipeline<T>>,
    capacity: nat,
)
    ensures
        swept(work, verdicts, ready, capacity).held.to_multiset().add(
            swept(work, verdicts, ready, capacity).ready.to_multiset(),
        ).add(swept(work, verdicts, ready, capacity).failed.to_multiset())
            == work.to_multiset().add(ready.to_multiset()),
        swept(work, verdicts, ready, capacity).held.len() + swept(
            work,
            verdicts,
            ready,
            capacity,
        ).ready.len() + swept(work, verdicts, ready, capacity).failed.len() == work.len()
            + ready.len(),
    decreases work.len(),
{
    broadcast use to_multiset_build;

    let after = swept(work, verdicts, ready, capacity);
    if work.len() == 0 {
        to_multiset_len(work);
        to_multiset_len(after.held);
        lemma_multiset_empty_len(work.to_multiset());
        lemma_multiset_empty_len(after.held.to_multiset());
        assert(after.held.to_multiset().add(after.ready.to_multiset()).add(
            after.failed.to_multiset(),
        ) =~= work.to_multiset().add(ready.to_multiset()));
    } else {
        lemma_sweep_conserves(work.drop_last(), verdicts, ready, capacity);
        let before = swept(work.drop_last(), verdicts, ready, capacity);
        assert(work.drop_last().push(work.last()) =~= work);
        assert(work.to_multiset() =~= work.drop_last().to_multiset().insert(work.last()));
        assert(after.held.to_multiset().add(after.ready.to_multiset()).add(
            after.failed.to_multiset(),
        ) =~= before.held.to_multiset().add(before.ready.to_multiset()).add(
            before.failed.to_multiset(),
        ).insert(work.last()));
        assert(after.held.to_multiset().add(after.ready.to_multiset()).add(
            after.failed.to_multiset(),
        ) =~= work.to_multiset().add(ready.to_multiset()));
    }
}

/// The names of the engines `pipelines`, in their order.
pub open spec fn ids_of<T>(pipelines: Seq<Pipeline<T>>) -> Seq<u64> {
    pipelines.map_values(|pipeline: Pipeline<T>| pipeline.id.0)
}

proof fn lemma_ids_push<T>(pipelines: Seq<Pipeline<T>>, pipeline: Pipeline<T>)
    ensures
        ids_of(pipelines.push(pipeline)) == ids_of(pipelines).push(pipeline.id.0),
{
    assert(ids_of(pipelines.push(pipeline)) =~= ids_of(pipelines).push(pipeline.id.0));
}

proof fn lemma_ids_add<T>(first: Seq<Pipeline<T>>, second: Seq<Pipeline<T>>)
    ensures
        ids_of(first + second) == ids_of(first) + ids_of(second),
{
    assert(ids_of(first + second) =~= ids_of(first) + ids_of(second));
}

/// A sweep conserves the names of the engines as it conserves the engines.
proof fn lemma_sweep_conserves_ids<T>(
    work: Seq<Pipeline<T>>,
    verdicts: Seq<Verdict>,
    ready: Seq<Pipeline<T>>,
    capacity: nat,
)
    ensures
        ids_of(swept(work, verdicts, ready, capacity).held).to_multiset().add(
            ids_of(swept(work, verdicts, ready, capacity).ready).to_multiset(),
        ).add(ids_of(swept(work, verdicts, ready, capacity).failed).to_multiset()) == ids_of(
            work,
        ).to_multiset().add(ids_of(ready).to_multiset()),
    decreases work.len(),
{
    broadcast use to_multiset_build;

    let after = swept(work, verdicts, ready, capacity);
    if work.len() == 0 {
        to_multiset_len(ids_of(work));
        to_multiset_len(ids_of(after.held));
        lemma_multiset_empty_len(ids_of(work).to_multiset());
        lemma_multiset_empty_len(ids_of(after.held).to_multiset());
        assert(ids_of(after.held).to_multiset().add(ids_of(after.ready).to_multiset()).add(
            ids_of(after.failed).to_multiset(),
        ) =~= ids_of(work).to_multiset().add(ids_of(ready).to_multiset()));
    } else {
        lemma_sweep_conserves_ids(work.drop_last(), verdicts, ready, capacity);
        let before = swept(work.drop_last(), verdicts, ready, capacity);
        let last = work.last();
        assert(work.drop_last().push(last) =~= work);
        lemma_ids_push(work.drop_last(), last);
        lemma_ids_push(before.held, last);
        lemma_ids_push(before.ready, last);
        lemma_ids_push(before.failed, last);
        assert(ids_of(work).to_multiset() =~= ids_of(work.drop_last()).to_multiset().insert(
            last.id.0,
        ));
        assert(ids_of(after.held).to_multiset().add(ids_of(after.ready).to_multiset()).add(
            ids_of(after.failed).to_multiset(),
        ) =~= ids_of(before.held).to_multiset().add(ids_of(before.ready).to_multiset()).add(
            ids_of(before.failed).to_multiset(),
        ).insert(last.id.0));
        assert(ids_of(after.held).to_multiset().add(ids_of(after.ready).to_multiset()).add(
            ids_of(after.failed).to_multiset(),
        ) =~= ids_of(work).to_multiset().add(ids_of(ready).to_multiset()));
    }
}

/// No engine in two places: where every engine under preroll or queued has
/// a name of its own before a sweep, every engine held or queued has a name
/// of its own after it, so that none is both held and queued, nor queued
/// twice.
pub proof fn lemma_sweep_keeps_apart<T>(
    work: Seq<Pipeline<T>>,
    verdicts: Seq<Verdict>,
    ready: Seq<Pipeline<T>>,
    capacity: nat,
)
    requires
        ids_of(work + ready).no_duplicates(),
    ensures
        ids_of(
            swept(work, verdicts, ready, capacity).held + swept(
                work,
                verdicts,
                ready,
                capacity,
            ).ready,
        ).no_duplicates(),
{
    broadcast use vstd::multiset::group_multiset_axioms;

    let after = swept(work, verdicts, ready, capacity);
    let before_ids = ids_of(work + ready);
    let after_ids = ids_of(after.held + after.ready);
    lemma_sweep_conserves_ids(work, verdicts, ready, capacity);
    lemma_ids_add(work, ready);
    lemma_ids_add(after.held, after.ready);
    lemma_multiset_commutative(ids_of(work), ids_of(ready));
    lemma_multiset_commutative(ids_of(after.held), ids_of(after.ready));
    before_ids.lemma_multiset_has_no_duplicates();
    assert forall|x: u64| after_ids.to_multiset().contains(x) implies after_ids.to_multiset().count(
        x,
    ) == 1 by {
        let total = ids_of(after.held).to_multiset().add(ids_of(after.ready).to_multiset()).add(
            ids_of(after.failed).to_multiset(),
        );
        assert(total.count(x) == after_ids.to_multiset().count(x) + ids_of(
            after.failed,
        ).to_multiset().count(x));
        assert(before_ids.to_multiset().count(x) == total.count(x));
        assert(before_ids.to_multiset().contains(x));
    }
    after_ids.lemma_multiset_has_no_duplicates_conv();
}

/// A sweep only adds to the ready queue, and never past its capacity: what
/// was queued stays at the front in its order, and a queue within its
/// capacity stays within it.
pub proof fn lemma_sweep_bounded<T>(
    work: Seq<Pipeline<T>>,
    verdicts: Seq<Verdict>,
    ready: Seq<Pipeline<T>>,
    capacity: nat,
)
    ensures
        ready.is_prefix_of(swept(work, verdicts, ready, capacity).ready),
        ready.len() <= capacity ==> swept(work, verdicts, ready, capacity).ready.len() <= capacity,
    decreases work.len(),
{
    if work.len() > 0 {
        lemma_sweep_bounded(work.drop_last(), verdicts, ready, capacity);
    }
}

/// Backpressure: a sweep that meets a full ready queue leaves the queue as
/// it is and holds every engine that has not failed, the complete ones too.
pub proof fn lemma_sweep_backpressure<T>(
    work: Seq<Pipeline<T>>,
    verdicts: Seq<Verdict>,
    ready: Seq<Pipeline<T>>,
    capacity: nat,
)
    requires
        ready.len() >= capacity,
    ensures
        swept(work, verdicts, ready, capacity).ready == ready,
        forall|i: int|
            0 <= i < work.len() && verdicts[i] != Verdict::Failed ==> swept(
                work,
                verdicts,
                ready,
                capacity,
            ).held.contains(#[trigger] work[i]),
        forall|i: int|
            0 <= i < work.len() && verdicts[i] == Verdict::Failed ==> swept(
                work,
                verdicts,
                ready,
                capacity,
            ).failed.contains(#[trigger] work[i]),
    decreases work.len(),
{
    if work.len() > 0 {
        let rest = work.drop_last();
        lemma_sweep_backpressure(rest, verdicts, ready, capacity);
        let before = swept(rest, verdicts, ready, capacity);
        let after = swept(work, verdicts, ready, capacity);
        assert forall|i: int| 0 <= i < work.len() && verdicts[i] != Verdict::Failed implies after.held.contains(
            #[trigger] work[i],
        ) by {
            if i < rest.len() {
                assert(work[i] == rest[i]);
                let k = choose|k: int| 0 <= k < before.held.len() && before.held[k] == rest[i];
                assert(after.held[k] == work[i]);
            } else {
                assert(after.held[after.held.len() - 1] == work[i]);
            }
        }
        assert forall|i: int| 0 <= i < work.len() && verdicts[i] == Verdict::Failed implies after.failed.contains(
            #[trigger] work[i],
        ) by {
            if i < rest.len() {
                assert(work[i] == rest[i]);
                let k = choose|k: int| 0 <= k < before.failed.len() && before.failed[k] == rest[i];
                assert(after.failed[k] == work[i]);
            } else {
                assert(after.failed[after.failed.len() - 1] == work[i]);
            }
        }
    }
}

/// The bounded working set of engines that are being driven to the paused
/// state.
pub struct Preroll<T> {
    entries: VecDeque<Pipeline<T>>,
    capacity: usize,
}

impl<T> Preroll<T> {
    /// The engines under preroll, in the order they will be looked at.
    pub closed spec fn view(&self) -> Seq<Pipeline<T>> {
        self.entries@
    }

    /// The most engines the working set takes.
    pub closed spec fn capacity(&self) -> usize {
        self.capacity
    }

    /// The working set holds no more than its capacity.
    pub open spec fn wf(&self) -> bool {
        self@.len() <= self.capacity()
    }

    /// An empty working set that takes up to `capacity` engines.
    pub fn new(capacity: usize) -> (preroll: Preroll<T>)
        ensures
            preroll.wf(),
            preroll.capacity() == capacity,
            preroll@ == Seq::<Pipeline<T>>::empty(),
    {
        Preroll { entries: VecDeque::new(), capacity }
    }

    /// The number of engines under preroll.
    pub fn len(&self) -> (n: usize)
        ensures
            n == self@.len(),
    {
        self.entries.len()
    }

    /// How many more engines the working set takes.
    pub fn room(&self) -> (n: usize)
        requires
            self.wf(),
        ensures
            n == self.capacity() - self@.len(),
    {
        self.capacity - self.entries.len()
    }

    /// The engine at place `index`.
    pub fn get(&self, index: usize) -> (pipeline: &Pipeline<T>)
        requires
            index < self@.len(),
        ensures
            *pipeline == self@[index as int],
    {
        &self.entries[index]
    }

    /// Takes a new engine into the working set. A full working set takes
    /// nothing and hands the engine back.
    pub fn accept(&mut self, pipeline: Pipeline<T>) -> (refused: Option<Pipeline<T>>)
        requires
            old(self).wf(),
        ensures
            final(self).wf(),
            final(self).capacity() == old(self).capacity(),
            old(self)@.len() < old(self).capacity() ==> refused.is_none() && final(self)@ == old(self)@.push(
                pipeline,
            ),
            old(self)@.len() >= old(self).capacity() ==> refused == Some(pipeline) && final(self)@
                == old(self)@,
    {
        if self.entries.len() < self.capacity {
            self.entries.push_back(pipeline);
            None
        } else {
            Some(pipeline)
        }
    }

    /// Looks at every engine under preroll once, in order, the engine at
    /// place `i` with the verdict `verdicts[i]`: failed engines are handed
    /// out, complete ones move to the ready queue as far as it has room, and
    /// the others stay, the complete ones for which the queue had no room
    /// among them.
    pub fn sweep(&mut self, ready: &mut ReadyQueue<T>, verdicts: &Vec<Verdict>) -> (failed: Vec<
        Pipeline<T>,
    >)
        requires
            old(self).wf(),
            old(ready).wf(),
            verdicts.len() == old(self)@.len(),
        ensures
            final(self).wf(),
            final(ready).wf(),
            final(self).capacity() == old(self).capacity(),
            final(ready).capacity() == old(ready).capacity(),
            final(self)@ == swept(old(self)@, verdicts@, old(ready)@, old(ready).capacity() as nat).held,
            final(ready)@ == swept(old(self)@, verdicts@, old(ready)@, old(ready).capacity() as nat).ready,
            failed@ == swept(old(self)@, verdicts@, old(ready)@, old(ready).capacity() as nat).failed,
    {
        let ghost work = self.entries@;
        let ghost queued = ready@;
        let ghost limit = ready.capacity() as nat;
        let mut failed: Vec<Pipeline<T>> = Vec::new();
        let count = self.entries.len();
        let mut i: usize = 0;
        while i < count
            invariant
                i <= count,
                count == work.len(),
                count == verdicts.len(),
                work == old(self)@,
                queued == old(ready)@,
                limit == old(ready).capacity(),
                self.capacity == old(self).capacity,
                ready.capacity() == old(ready).capacity(),
                ready.wf(),
                self.entries@ == work.skip(i as int) + swept(
                    work.take(i as int),
                    verdicts@,
                    queued,
                    limit,
                ).held,
                ready@ == swept(work.take(i as int), verdicts@, queued, limit).ready,
                failed@ == swept(work.take(i as int), verdicts@, queued, limit).failed,
            decreases count - i,
        {
            let pipeline = self.entries.pop_front().unwrap();
            proof {
                let next = work.take(i + 1);
                assert(next.drop_last() =~= work.take(i as int));
                assert(next.last() == work[i as int]);
                assert(pipeline == work[i as int]);
            }
            match verdicts[i] {
                Verdict::Failed => {
                    failed.push(pipeline);
                },
                Verdict::Complete => {
                    match ready.push(pipeline) {
                        Some(back) => {
                            self.entries.push_back(back);
                        },
                        None => {},
                    }
                },
                Verdict::Pending => {
                    self.entries.push_back(pipeline);
                },
            }
            i += 1;
            assert(self.entries@ =~= work.skip(i as int) + swept(
                work.take(i as int),
                verdicts@,
                queued,
                limit,
            ).held);
        }
        proof {
            assert(work.take(count as int) =~= work);
            assert(self.entries@ =~= swept(work, verdicts@, queued, limit).held);
            lemma_sweep_conserves(work, verdicts@, queued, limit);
            lemma_sweep_bounded(work, verdicts@, queued, limit);
        }
        failed
    }
}

} // verus!
