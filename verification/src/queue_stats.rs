use crate::file_kind::kind_of_path;
use crate::file_kind::FileKind;
use vstd::prelude::*;

verus! {

/// One more, starting over after the largest number.
pub open spec fn bumped(n: usize) -> usize {
    if n == usize::MAX {
        0
    } else {
        (n + 1) as usize
    }
}

/// One less, starting over from the largest number below zero.
pub open spec fn dropped(n: usize) -> usize {
    if n == 0 {
        usize::MAX
    } else {
        (n - 1) as usize
    }
}

/// How many queued files there are of each kind.
#[derive(Debug, Copy, Clone, PartialEq, Eq, Structural)]
pub struct QueueStats {
    pub video_count: usize,
    pub image_count: usize,
    pub audio_count: usize,
}

impl QueueStats {
    /// The counts after a file of kind `kind` was queued; a file of no
    /// known kind is not counted.
    pub open spec fn pushed(self, kind: Option<FileKind>) -> QueueStats {
        match kind {
            Some(FileKind::Video) => QueueStats { video_count: bumped(self.video_count), ..self },
            Some(FileKind::Image) => QueueStats { image_count: bumped(self.image_count), ..self },
            Some(FileKind::Audio) => QueueStats { audio_count: bumped(self.audio_count), ..self },
            None => self,
        }
    }

    /// The counts after a file of kind `kind` has left the queue.
    pub open spec fn removed(self, kind: Option<FileKind>) -> QueueStats {
        match kind {
            Some(FileKind::Video) => QueueStats { video_count: dropped(self.video_count), ..self },
            Some(FileKind::Image) => QueueStats { image_count: dropped(self.image_count), ..self },
            Some(FileKind::Audio) => QueueStats { audio_count: dropped(self.audio_count), ..self },
            None => self,
        }
    }

    /// The counts after each of the files at `paths` has left the queue.
    pub open spec fn removed_all(self, paths: Seq<Seq<char>>) -> QueueStats
        decreases paths.len(),
    {
        if paths.len() == 0 {
            self
        } else {
            self.removed_all(paths.drop_last()).removed(kind_of_path(paths.last()))
        }
    }

    /// Counts of zero.
    pub fn new() -> (stats: QueueStats)
        ensures
            stats == (QueueStats { video_count: 0, image_count: 0, audio_count: 0 }),
    {
        QueueStats { video_count: 0, image_count: 0, audio_count: 0 }
    }

    /// Counts a file of the given kind as queued.
    pub fn push_kind(&mut self, kind: Option<FileKind>)
        ensures
            *final(self) == old(self).pushed(kind),
    {
        match kind {
            Some(FileKind::Video) => {
                self.video_count = self.video_count.wrapping_add(1);
            },
            Some(FileKind::Image) => {
                self.image_count = self.image_count.wrapping_add(1);
            },
            Some(FileKind::Audio) => {
                self.audio_count = self.audio_count.wrapping_add(1);
            },
            None => {},
        }
    }

    /// Counts a file of the given kind as gone from the queue.
    pub fn remove_kind(&mut self, kind: Option<FileKind>)
        ensures
            *final(self) == old(self).removed(kind),
    {
        match kind {
            Some(FileKind::Video) => {
                self.video_count = self.video_count.wrapping_sub(1);
            },
            Some(FileKind::Image) => {
                self.image_count = self.image_count.wrapping_sub(1);
            },
            Some(FileKind::Audio) => {
                self.audio_count = self.audio_count.wrapping_sub(1);
            },
            None => {},
        }
    }

    /// Counts the file at `path` as queued, by the kind its name tells.
    pub fn push_path(&mut self, path: &str)
        ensures
            *final(self) == old(self).pushed(kind_of_path(path@)),
    {
        self.push_kind(FileKind::from_path(path));
    }

    /// Counts the file at `path` as gone from the queue.
    pub fn remove_path(&mut self, path: &str)
        ensures
            *final(self) == old(self).removed(kind_of_path(path@)),
    {
        self.remove_kind(FileKind::from_path(path));
    }

    /// Sets every count to zero.
    pub fn reset(&mut self)
        ensures
            *final(self) == (QueueStats { video_count: 0, image_count: 0, audio_count: 0 }),
    {
        self.video_count = 0;
        self.image_count = 0;
        self.audio_count = 0;
    }
}

/// Counting a file in and out again leaves the counts as they were.
pub proof fn lemma_push_then_remove(stats: QueueStats, kind: Option<FileKind>)
    ensures
        stats.pushed(kind).removed(kind) == stats,
{
}

} // verus!
