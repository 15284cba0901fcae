use crate::file_kind::kind_of_path;
use crate::path_cache::Cache;
use crate::path_cache::PathCache;
use crate::pipeline::Pipeline;
use crate::queue::outside;
use crate::queue::paths_of;
use crate::queue::under;
use crate::queue::ReadyQueue;
use crate::queue_stats::QueueStats;
use crate::roots::RootSet;
use crate::roots::texts;
use vstd::prelude::*;

verus! {

/// The number of engines the ready queue takes unless told otherwise.
pub const MAX_QUEUE_SIZE: usize = 20;

/// The number of engines under preroll at a time unless told otherwise.
pub const MAX_PRE_ROLL_QUEUE_SIZE: usize = 10;

/// The time to wait for roots when none is in use, in milliseconds.
pub const IDLE_SLEEP_MS: u64 = 1000;

/// The timeout of a scan against the backlog, in milliseconds: a tenth of
/// a second with an empty queue, rising evenly to ten seconds with a full
/// one.
pub open spec fn timeout_for(queue_len: nat, queue_size: nat) -> nat {
    100 + 9900 * queue_len / queue_size
}

/// A number of milliseconds, held at the largest where it would pass it.
pub open spec fn held(ms: nat) -> u64 {
    if ms > u64::MAX {
        u64::MAX
    } else {
        ms as u64
    }
}

/// The timeout of the next scan when `queue_len` of `queue_size` places are
/// taken.
pub fn timeout_ms(queue_len: usize, queue_size: usize) -> (ms: u64)
    requires
        queue_size > 0,
        timeout_for(queue_len as nat, queue_size as nat) <= u64::MAX,
    ensures
        ms == timeout_for(queue_len as nat, queue_size as nat),
{
    let scaled: u128 = 9900u128 * (queue_len as u128);
    let share: u128 = scaled / (queue_size as u128);
    (share + 100) as u64
}

/// The timeout of the next scan when `queue_len` of `queue_size` places are
/// taken, or nothing for a queue without places or a backlog whose timeout
/// is past the largest number of milliseconds.
pub fn timeout_for_queue(queue_len: usize, queue_size: usize) -> (ms: Option<u64>)
    ensures
        ms.is_some() == (queue_size > 0 && timeout_for(queue_len as nat, queue_size as nat)
            <= u64::MAX),
        ms.is_some() ==> ms.unwrap() == timeout_for(queue_len as nat, queue_size as nat),
{
    if queue_size == 0 {
        return None;
    }
    let scaled: u128 = 9900u128 * (queue_len as u128);
    let share: u128 = scaled / (queue_size as u128);
    if share + 100 > u64::MAX as u128 {
        None
    } else {
        Some(timeout_ms(queue_len, queue_size))
    }
}

/// What the discovery stage does next.
#[derive(Debug, Copy, Clone, PartialEq, Eq, Structural)]
pub enum Plan {
    /// No root is in use: wait, then look at the backlog again.
    Sleep { ms: u64 },
    /// Draw a file within these timeouts.
    Scan { scan_timeout_ms: u64, busy_timeout_ms: u64 },
}

/// The plan for a stage whose timeout stands at `timeout_ms`, with
/// `enabled_roots` roots in use: a scan may take twice as long as its
/// walkers may idle.
pub open spec fn planned(timeout_ms: u64, enabled_roots: nat) -> Plan {
    if enabled_roots == 0 {
        Plan::Sleep { ms: IDLE_SLEEP_MS }
    } else {
        Plan::Scan { scan_timeout_ms: held(2 * (timeout_ms as nat)), busy_timeout_ms: timeout_ms }
    }
}

/// What a scan came to.
#[derive(Debug)]
pub enum Found {
    /// The scan found nothing.
    Missed,
    /// The scan found a file that is outstanding already.
    Dropped,
    /// The scan found a file to send on.
    Passed(String),
}

/// The state of the discovery stage: the guard against duplicates, the
/// counts of what was passed on, and the timeout of the next scan.
pub struct Feeder {
    cache: PathCache,
    stats: QueueStats,
    timeout_ms: u64,
}

impl Feeder {
    /// What the guard against duplicates holds.
    pub closed spec fn cache(&self) -> Cache {
        self.cache@
    }

    /// The counts of the files passed on and not yet taken out.
    pub closed spec fn stats(&self) -> QueueStats {
        self.stats
    }

    /// The timeout of the next scan, in milliseconds.
    pub closed spec fn timeout(&self) -> u64 {
        self.timeout_ms
    }

    /// The guard is well-formed.
    pub open spec fn wf(&self) -> bool {
        self.cache().wf()
    }

    /// A stage that has passed nothing on yet, with a guard of the given
    /// capacity.
    pub fn new(cache_size: usize) -> (feeder: Feeder)
        requires
            cache_size > 0,
        ensures
            feeder.wf(),
            feeder.cache() == Cache::fresh(cache_size as nat),
            feeder.stats() == (QueueStats { video_count: 0, image_count: 0, audio_count: 0 }),
            feeder.timeout() == 100,
    {
        Feeder {
            cache: PathCache::with_capacity(cache_size),
            stats: QueueStats::new(),
            timeout_ms: 100,
        }
    }

    /// The counts of the files passed on and not yet taken out.
    pub fn counts(&self) -> (stats: QueueStats)
        ensures
            stats == self.stats(),
    {
        self.stats
    }

    /// Begins a round with the timeout that the backlog asks for.
    pub fn begin(&mut self, timeout_ms: u64)
        ensures
            final(self).timeout() == timeout_ms,
            final(self).cache() == old(self).cache(),
            final(self).stats() == old(self).stats(),
    {
        self.timeout_ms = timeout_ms;
    }

    /// What to do next, with `enabled_roots` roots in use.
    pub fn plan(&self, enabled_roots: usize) -> (plan: Plan)
        ensures
            plan == planned(self.timeout(), enabled_roots as nat),
    {
        if enabled_roots == 0 {
            Plan::Sleep { ms: IDLE_SLEEP_MS }
        } else {
            Plan::Scan {
                scan_timeout_ms: self.timeout_ms.saturating_add(self.timeout_ms),
                busy_timeout_ms: self.timeout_ms,
            }
        }
    }

    /// After a scan. A scan that found nothing changes nothing: the round
    /// is tried again later, with the timeout that the backlog then asks
    /// for. A file that was found is offered to the guard: a file that
    /// passes is counted and handed back to be sent on; a duplicate is
    /// dropped, and the round is over.
    pub fn found(&mut self, sample: Option<String>) -> (found: Found)
        requires
            old(self).wf(),
        ensures
            final(self).wf(),
            match sample {
                None => {
                    &&& found is Missed
                    &&& final(self).timeout() == old(self).timeout()
                    &&& final(self).cache() == old(self).cache()
                    &&& final(self).stats() == old(self).stats()
                },
                Some(path) => {
                    &&& final(self).timeout() == old(self).timeout()
                    &&& final(self).cache() == old(self).cache().toggled(path@)
                    &&& if old(self).cache().outstanding.contains(path@) {
                        found is Dropped && final(self).stats() == old(self).stats()
                    } else {
                        found == Found::Passed(path) && final(self).stats() == old(self).stats().pushed(kind_of_path(path@))
                    }
                },
            },
    {
        match sample {
            None => Found::Missed,
            Some(path) => {
                if self.cache.insert_or_remove(path.clone()) {
                    self.stats.push_path(path.as_str());
                    Found::Passed(path)
                } else {
                    Found::Dropped
                }
            },
        }
    }

    /// After a file that was passed on has left the supply chain for good:
    /// it is counted out and outstanding no more.
    pub fn release(&mut self, path: &str)
        requires
            old(self).wf(),
        ensures
            final(self).wf(),
            final(self).timeout() == old(self).timeout(),
            final(self).cache() == old(self).cache().released(path@),
            final(self).stats() == old(self).stats().removed(kind_of_path(path@)),
    {
        self.cache.remove(path);
        self.stats.remove_path(path);
    }

    /// After the files at `paths` have left the supply chain for good:
    /// each is counted out and outstanding no more.
    pub fn release_all(&mut self, paths: &Vec<String>)
        requires
            old(self).wf(),
        ensures
            final(self).wf(),
            final(self).timeout() == old(self).timeout(),
            final(self).cache() == old(self).cache().released_all(texts(paths@)),
            final(self).stats() == old(self).stats().removed_all(texts(paths@)),
    {
        let ghost all = texts(paths@);
        let mut i: usize = 0;
        while i < paths.len()
            invariant
                i <= paths.len(),
                all == texts(paths@),
                self.wf(),
                self.timeout() == old(self).timeout(),
                self.cache() == old(self).cache().released_all(all.take(i as int)),
                self.stats() == old(self).stats().removed_all(all.take(i as int)),
            decreases paths.len() - i,
        {
            proof {
                assert(all.take(i + 1).drop_last() =~= all.take(i as int));
                assert(all.take(i + 1).last() == paths@[i as int]@);
            }
            self.release(paths[i].as_str());
            i += 1;
        }
        assert(all.take(i as int) =~= all);
    }

    /// After the queue was emptied: every count is zero again.
    pub fn reset(&mut self)
        ensures
            final(self).timeout() == old(self).timeout(),
            final(self).cache() == old(self).cache(),
            final(self).stats() == (QueueStats { video_count: 0, image_count: 0, audio_count: 0 }),
    {
        self.stats.reset();
    }
}

/// The change of the root set: evicts from the ready queue every engine
/// whose file lies under no root in use, counts its file out and frees its
/// place in the guard. The engines that stay are untouched and keep their
/// order; the evicted ones are handed out, oldest first.
pub fn evict_disabled<T>(queue: &mut ReadyQueue<T>, feeder: &mut Feeder, roots: &RootSet) -> (evicted:
    Vec<Pipeline<T>>)
    requires
        old(queue).wf(),
        old(feeder).wf(),
    ensures
        final(queue).wf(),
        final(feeder).wf(),
        final(queue).capacity() == old(queue).capacity(),
        final(queue)@ == old(queue)@.filter(under(roots.enabled())),
        evicted@ == old(queue)@.filter(outside(roots.enabled())),
        final(feeder).timeout() == old(feeder).timeout(),
        final(feeder).cache() == old(feeder).cache().released_all(paths_of(evicted@)),
        final(feeder).stats() == old(feeder).stats().removed_all(paths_of(evicted@)),
{
    let evicted = queue.retain_under(roots);
    let ghost all = paths_of(evicted@);
    let mut i: usize = 0;
    while i < evicted.len()
        invariant
            i <= evicted.len(),
            all == paths_of(evicted@),
            feeder.wf(),
            feeder.timeout() == old(feeder).timeout(),
            feeder.cache() == old(feeder).cache().released_all(all.take(i as int)),
            feeder.stats() == old(feeder).stats().removed_all(all.take(i as int)),
        decreases evicted.len() - i,
    {
        proof {
            assert(all.take(i + 1).drop_last() =~= all.take(i as int));
            assert(all.take(i + 1).last() == evicted@[i as int].path@);
        }
        feeder.release(evicted[i].path());
        i += 1;
    }
    assert(all.take(i as int) =~= all);
    evicted
}

} // verus!
