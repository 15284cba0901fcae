use crate::pipeline::state::EngineState;
use crate::playback_speed::PlaybackSpeed;
use crate::trusted::fx_map_get;
use crate::trusted::fx_map_insert;
use crate::trusted::fx_map_new;
use crate::trusted::fx_map_remove;
use rustc_hash::FxBuildHasher;
use std::collections::HashMap;
use vstd::prelude::*;

verus! {

/// The name of one engine, given out once and kept for the engine's life.
#[derive(Debug, Copy, Clone, PartialEq, Eq, Hash, Structural)]
pub struct PipelineId(pub u64);

/// The counter that engine names are drawn from.
#[derive(Debug)]
pub struct IdSource {
    next: u64,
}

/// The number that follows `n` in the counter, which starts over after the
/// largest.
pub open spec fn following(n: u64) -> u64 {
    if n == u64::MAX {
        0
    } else {
        (n + 1) as u64
    }
}

/// The number the counter stands at after `count` names were drawn from a
/// counter that stood at `start`.
pub open spec fn upcoming_after(start: u64, count: nat) -> u64
    decreases count,
{
    if count == 0 {
        start
    } else {
        following(upcoming_after(start, (count - 1) as nat))
    }
}

/// Names are not given out twice: two names drawn from one counter differ,
/// unless as many names were drawn between them as there are numbers.
pub proof fn lemma_names_differ(start: u64, i: nat, j: nat)
    requires
        i < j,
        j - i <= u64::MAX,
    ensures
        upcoming_after(start, i) != upcoming_after(start, j),
{
    lemma_upcoming_after(start, i);
    lemma_upcoming_after(start, j);
    let m = 0x1_0000_0000_0000_0000int;
    let a = start + i;
    let b = start + j;
    assert(a % m != b % m) by (nonlinear_arith)
        requires
            0 < b - a < m,
            m > 0,
    ;
}

proof fn lemma_upcoming_after(start: u64, count: nat)
    ensures
        upcoming_after(start, count) == (start + count) % 0x1_0000_0000_0000_0000,
    decreases count,
{
    let m = 0x1_0000_0000_0000_0000int;
    if count == 0 {
        assert(start as int % m == start) by (nonlinear_arith)
            requires
                0 <= start < m,
        ;
    } else {
        lemma_upcoming_after(start, (count - 1) as nat);
        let before = (start + count - 1) % m;
        let sum = start + count - 1;
        assert(0 <= before < m) by (nonlinear_arith)
            requires
                before == sum % m,
                m > 0,
        ;
        if before == m - 1 {
            assert((sum + 1) % m == 0) by (nonlinear_arith)
                requires
                    sum % m == m - 1,
                    m > 0,
            ;
        } else {
            assert((sum + 1) % m == sum % m + 1) by (nonlinear_arith)
                requires
                    sum % m < m - 1,
                    sum % m >= 0,
                    m > 0,
            ;
        }
    }
}

impl IdSource {
    /// The number the next name will carry.
    pub closed spec fn upcoming(&self) -> u64 {
        self.next
    }

    /// A counter that starts at zero.
    pub fn new() -> (source: IdSource)
        ensures
            source.upcoming() == 0,
    {
        IdSource { next: 0 }
    }
}

impl PipelineId {
    /// Draws the next name from `source`.
    pub fn new(source: &mut IdSource) -> (id: PipelineId)
        ensures
            id.0 == old(source).upcoming(),
            final(source).upcoming() == following(old(source).upcoming()),
    {
        let value = source.next;
        source.next = if value == u64::MAX {
            0
        } else {
            value + 1
        };
        PipelineId(value)
    }
}

/// A request to the worker that owns an engine. A seek carries the target
/// position in nanoseconds and, where the rate changes too, the new speed.
#[derive(Debug, Copy, Clone)]
pub enum Command {
    AddPipeline(PipelineId),
    RemovePipeline(PipelineId),
    SetState(PipelineId, EngineState),
    Seek(PipelineId, u64, Option<PlaybackSpeed>),
    SetVideoSize(PipelineId, i32, i32),
}

impl Command {
    /// The engine the command is about.
    pub open spec fn target(self) -> PipelineId {
        match self {
            Command::AddPipeline(id) => id,
            Command::RemovePipeline(id) => id,
            Command::SetState(id, _) => id,
            Command::Seek(id, _, _) => id,
            Command::SetVideoSize(id, _, _) => id,
        }
    }

    /// The engine the command is about.
    pub fn id(&self) -> (id: PipelineId)
        ensures
            id == self.target(),
    {
        match self {
            Command::AddPipeline(id) => *id,
            Command::RemovePipeline(id) => *id,
            Command::SetState(id, _) => *id,
            Command::Seek(id, _, _) => *id,
            Command::SetVideoSize(id, _, _) => *id,
        }
    }
}

/// The worker that a cursor at `cursor` selects among `workers`: the cursor
/// itself, or the first worker once the cursor has run past the last.
pub open spec fn round_robin(cursor: usize, workers: usize) -> usize {
    if cursor >= workers {
        0
    } else {
        cursor
    }
}

/// The cursor after `count` engines were assigned, starting from zero.
pub open spec fn cursor_after(workers: usize, count: nat) -> usize
    decreases count,
{
    if count == 0 {
        0
    } else {
        (round_robin(cursor_after(workers, (count - 1) as nat), workers) + 1) as usize
    }
}

/// Round robin: in a pool of `workers` workers whose cursor starts at zero,
/// the engine created after `count` others goes to worker `count % workers`.
pub proof fn lemma_round_robin(workers: usize, count: nat)
    requires
        0 < workers < usize::MAX,
    ensures
        round_robin(cursor_after(workers, count), workers) == count % (workers as nat),
        cursor_after(workers, count) <= workers,
    decreases count,
{
    if count == 0 {
        assert(0nat % (workers as nat) == 0) by (nonlinear_arith)
            requires
                workers > 0,
        ;
    } else {
        lemma_round_robin(workers, (count - 1) as nat);
        let before = ((count - 1) as nat) % (workers as nat);
        assert(cursor_after(workers, count) == before + 1);
        assert(before < workers) by (nonlinear_arith)
            requires
                workers > 0,
                before == ((count - 1) as nat) % (workers as nat),
        ;
        if before + 1 == workers {
            assert(count % (workers as nat) == 0) by (nonlinear_arith)
                requires
                    before + 1 == workers,
                    before == ((count - 1) as nat) % (workers as nat),
                    workers > 0,
                    count > 0,
            ;
        } else {
            assert(count % (workers as nat) == before + 1) by (nonlinear_arith)
                requires
                    before + 1 < workers,
                    before == ((count - 1) as nat) % (workers as nat),
                    workers > 0,
                    count > 0,
            ;
        }
    }
}

/// The routing of engines onto a fixed number of workers: which worker owns
/// which engine, and which worker the next engine goes to.
pub struct WorkerPool {
    workers: usize,
    next_index: usize,
    pipeline_worker_map: HashMap<u64, usize, FxBuildHasher>,
}

impl WorkerPool {
    /// The number of workers.
    pub closed spec fn workers(&self) -> usize {
        self.workers
    }

    /// The round-robin cursor.
    pub closed spec fn cursor(&self) -> usize {
        self.next_index
    }

    /// The routing table: the worker of every live engine.
    pub closed spec fn routes(&self) -> Map<u64, usize> {
        self.pipeline_worker_map@
    }

    /// There is a worker, the cursor has not run off, and every route leads
    /// to a worker of the pool.
    pub closed spec fn wf(&self) -> bool {
        &&& 0 < self.workers < usize::MAX
        &&& self.next_index <= self.workers
        &&& forall|id: u64| #[trigger]
            self.pipeline_worker_map@.contains_key(id) ==> self.pipeline_worker_map@[id]
                < self.workers
    }

    /// A pool of `workers` workers that owns no engine yet.
    pub fn new(workers: usize) -> (pool: WorkerPool)
        requires
            0 < workers < usize::MAX,
        ensures
            pool.wf(),
            pool.workers() == workers,
            pool.cursor() == 0,
            pool.routes() =~= Map::empty(),
    {
        WorkerPool { workers, next_index: 0, pipeline_worker_map: fx_map_new() }
    }

    /// The number of workers.
    pub fn worker_count(&self) -> (n: usize)
        ensures
            n == self.workers(),
    {
        self.workers
    }

    /// The worker that owns engine `id`, if the engine is live.
    pub fn worker_of(&self, id: PipelineId) -> (worker: Option<usize>)
        requires
            self.wf(),
        ensures
            worker == if self.routes().contains_key(id.0) {
                Some(self.routes()[id.0])
            } else {
                None
            },
            worker.is_some() ==> worker.unwrap() < self.workers(),
    {
        match fx_map_get(&self.pipeline_worker_map, id.0) {
            Some(index) => Some(*index),
            None => None,
        }
    }

    /// Picks the worker for the next engine and moves the cursor past it.
    pub fn next_index(&mut self) -> (index: usize)
        requires
            old(self).wf(),
        ensures
            final(self).wf(),
            index == round_robin(old(self).cursor(), old(self).workers()),
            index < old(self).workers(),
            final(self).cursor() == index + 1,
            final(self).workers() == old(self).workers(),
            final(self).routes() == old(self).routes(),
    {
        let mut index = self.next_index;
        if index >= self.workers {
            index = 0;
        }
        self.next_index = index + 1;
        index
    }

    /// Routes a command: returns the worker that must receive it and keeps
    /// the routing table in step. A new engine goes to the next worker in
    /// turn and gets a route; a removal gives up the engine's route; every
    /// other command follows the route of its engine. A command other than
    /// an addition needs a live engine.
    pub fn send(&mut self, command: &Command) -> (index: usize)
        requires
            old(self).wf(),
            command is AddPipeline || old(self).routes().contains_key(command.target().0),
        ensures
            final(self).wf(),
            final(self).workers() == old(self).workers(),
            index < old(self).workers(),
            match *command {
                Command::AddPipeline(id) => {
                    &&& index == round_robin(old(self).cursor(), old(self).workers())
                    &&& final(self).cursor() == index + 1
                    &&& final(self).routes() == old(self).routes().insert(id.0, index)
                },
                Command::RemovePipeline(id) => {
                    &&& index == old(self).routes()[id.0]
                    &&& final(self).cursor() == old(self).cursor()
                    &&& final(self).routes() == old(self).routes().remove(id.0)
                },
                _ => {
                    &&& index == old(self).routes()[command.target().0]
                    &&& final(self).cursor() == old(self).cursor()
                    &&& final(self).routes() == old(self).routes()
                },
            },
    {
        match command {
            Command::AddPipeline(id) => {
                let index = self.next_index();
                fx_map_insert(&mut self.pipeline_worker_map, id.0, index);
                index
            },
            Command::RemovePipeline(id) => {
                let removed = fx_map_remove(&mut self.pipeline_worker_map, id.0);
                removed.unwrap()
            },
            Command::SetState(id, _) | Command::Seek(id, _, _) | Command::SetVideoSize(id, _, _) => {
                let found = fx_map_get(&self.pipeline_worker_map, id.0);
                *found.unwrap()
            },
        }
    }
}

/// The engines that one worker owns, by name.
pub struct Worker<T> {
    engines: HashMap<u64, T, FxBuildHasher>,
}

impl<T> Worker<T> {
    /// The engines the worker owns.
    pub closed spec fn engines(&self) -> Map<u64, T> {
        self.engines@
    }

    /// A worker that owns no engine.
    pub fn new() -> (worker: Worker<T>)
        ensures
            worker.engines() =~= Map::empty(),
    {
        Worker { engines: fx_map_new() }
    }

    /// Whether the worker owns engine `id`.
    pub fn owns(&self, id: PipelineId) -> (r: bool)
        ensures
            r == self.engines().contains_key(id.0),
    {
        fx_map_get(&self.engines, id.0).is_some()
    }

    /// Takes ownership of an engine under the name `id`.
    pub fn add(&mut self, id: PipelineId, engine: T)
        ensures
            final(self).engines() == old(self).engines().insert(id.0, engine),
    {
        fx_map_insert(&mut self.engines, id.0, engine);
    }

    /// The engine named `id`, which the worker must own.
    pub fn get(&self, id: PipelineId) -> (engine: &T)
        requires
            self.engines().contains_key(id.0),
        ensures
            *engine == self.engines()[id.0],
    {
        fx_map_get(&self.engines, id.0).unwrap()
    }

    /// Gives up the engine named `id`, which the worker must own, and hands
    /// it out to be torn down.
    pub fn remove(&mut self, id: PipelineId) -> (engine: T)
        requires
            old(self).engines().contains_key(id.0),
        ensures
            engine == old(self).engines()[id.0],
            final(self).engines() == old(self).engines().remove(id.0),
    {
        fx_map_remove(&mut self.engines, id.0).unwrap()
    }

    /// Lets go of the engine named `id` after its last event found nobody to
    /// take it; nothing changes if the worker does not own such an engine.
    pub fn forget(&mut self, id: PipelineId) -> (engine: Option<T>)
        ensures
            final(self).engines() == old(self).engines().remove(id.0),
            engine == if old(self).engines().contains_key(id.0) {
                Some(old(self).engines()[id.0])
            } else {
                None
            },
    {
        fx_map_remove(&mut self.engines, id.0)
    }
}

/// Whether a handle that goes away is the last of its engine, so that the
/// engine is to be removed: it is when no other holder takes the engine's
/// events.
pub fn is_last_handle(receiver_count: usize) -> (last: bool)
    ensures
        last == (receiver_count == 1),
{
    receiver_count == 1
}

/// The position to flush at after a change of the video size: the current
/// position, unless the engine is playing and will show a new frame by
/// itself, or the position is not known.
pub fn flush_position(state: EngineState, position: Option<u64>) -> (target: Option<u64>)
    ensures
        target == if state == EngineState::Playing {
            None
        } else {
            position
        },
{
    if state == EngineState::Playing {
        None
    } else {
        position
    }
}

} // verus!
