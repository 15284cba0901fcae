use vstd::prelude::*;

verus! {

/// The lifecycle state of a media engine.
#[derive(Debug, Copy, Clone, PartialEq, Eq, Structural)]
pub enum EngineState {
    Null,
    Ready,
    Paused,
    Playing,
}

/// The state a cell shows after a command to change the state to `target`
/// has come back: the target where the command succeeded, else the state
/// as before.
pub open spec fn settled(before: EngineState, target: EngineState, succeeded: bool) -> EngineState {
    if succeeded {
        target
    } else {
        before
    }
}

/// The last lifecycle state an engine was seen in. The worker that owns the
/// engine writes it; every handle reads it without asking the worker.
#[derive(Debug, Copy, Clone, PartialEq, Eq, Structural)]
pub struct StateCell {
    pub current_state: EngineState,
}

impl StateCell {
    /// The cell of an engine that was just built in state `initial`.
    pub fn new(initial: EngineState) -> (cell: StateCell)
        ensures
            cell.current_state == initial,
    {
        StateCell { current_state: initial }
    }

    /// The state last written to the cell.
    pub fn state(&self) -> (state: EngineState)
        ensures
            state == self.current_state,
    {
        self.current_state
    }

    /// Takes note that a command to change the state to `target` has come
    /// back. The worker calls this before it answers the command, so that
    /// whoever has the answer reads the target where the command
    /// succeeded.
    pub fn on_set_state(&mut self, target: EngineState, succeeded: bool)
        ensures
            final(self).current_state == settled(old(self).current_state, target, succeeded),
    {
        if succeeded {
            self.current_state = target;
        }
    }

    /// Whether the engine has finished its preroll.
    pub fn is_paused(&self) -> (r: bool)
        ensures
            r == (self.current_state == EngineState::Paused),
    {
        self.current_state == EngineState::Paused
    }
}

} // verus!

verus! {

/// One picture of a video, as rows of RGBA pixels.
#[derive(Debug, Clone)]
pub struct Frame {
    pub width: u32,
    pub height: u32,
    /// RGBA
    pub data: Vec<u8>,
}

/// The length an image is shown for, in nanoseconds.
pub const IMAGE_DURATION_NS: u64 = 10_000_000_000;

/// The smaller of two times.
pub open spec fn earlier(a: u64, b: u64) -> u64 {
    if a <= b {
        a
    } else {
        b
    }
}

/// The duration after a sample: a duration that is known stays, and so
/// does an unknown one where the engine is gone; else the engine's answer
/// is taken, or the fixed length of an image where the engine has no
/// answer.
pub open spec fn duration_after(
    duration: u64,
    is_image: bool,
    engine_alive: bool,
    queried: Option<u64>,
) -> u64 {
    if duration != 0 || !engine_alive {
        duration
    } else {
        match queried {
            Some(found) => found,
            None => if is_image {
                IMAGE_DURATION_NS
            } else {
                duration
            },
        }
    }
}

/// The position after a sample stamped `pts`: the stamp where it lies
/// ahead, but never past the duration; else the position as it was.
pub open spec fn position_after(position: u64, duration: u64, pts: Option<u64>) -> u64 {
    match pts {
        Some(stamp) => if position < stamp {
            earlier(duration, stamp)
        } else {
            position
        },
        None => position,
    }
}

/// What the front end shows of one engine: two frames, of which one is
/// shown while the other is written, and the engine's clock in nanoseconds.
pub struct State {
    pub frames: [Frame; 2],
    pub active_frame: usize,
    pub duration: u64,
    pub position: u64,
    pub is_image: bool,
}

impl State {
    /// The place of the frame that is shown.
    pub open spec fn active(&self) -> int {
        self.active_frame as int
    }

    /// The two frames.
    pub open spec fn frames(&self) -> Seq<Frame> {
        self.frames@
    }

    /// The shown frame is one of the two.
    pub open spec fn wf(&self) -> bool {
        self.active_frame < 2
    }

    /// A state with the given two frames, the first of them shown, and a
    /// clock at zero.
    pub fn new(shown: Frame, hidden: Frame) -> (state: State)
        ensures
            state.wf(),
            state.active() == 0,
            state.frames() == seq![shown, hidden],
            state.duration == 0,
            state.position == 0,
            !state.is_image,
    {
        let state = State {
            frames: [shown, hidden],
            active_frame: 0,
            duration: 0,
            position: 0,
            is_image: false,
        };
        assert(state.frames@ =~= seq![shown, hidden]);
        state
    }

    /// The frame that is shown.
    pub fn active_frame(&self) -> (frame: &Frame)
        requires
            self.wf(),
        ensures
            *frame == self.frames()[self.active()],
    {
        &self.frames[self.active_frame]
    }

    /// The frame that is not shown.
    pub fn inactive_frame(&self) -> (frame: &Frame)
        requires
            self.wf(),
        ensures
            *frame == self.frames()[1 - self.active()],
    {
        &self.frames[1 - self.active_frame]
    }

    /// The frame that is shown, to be written.
    pub fn active_frame_mut(&mut self) -> (frame: &mut Frame)
        requires
            old(self).wf(),
        ensures
            *frame == old(self).frames()[old(self).active()],
            final(self).wf(),
            final(self).active() == old(self).active(),
            final(self).frames() == old(self).frames().update(old(self).active(), *final(frame)),
            final(self).duration == old(self).duration,
            final(self).position == old(self).position,
            final(self).is_image == old(self).is_image,
    {
        &mut self.frames[self.active_frame]
    }

    /// The frame that is not shown, to be written.
    pub fn inactive_frame_mut(&mut self) -> (frame: &mut Frame)
        requires
            old(self).wf(),
        ensures
            *frame == old(self).frames()[1 - old(self).active()],
            final(self).wf(),
            final(self).active() == old(self).active(),
            final(self).frames() == old(self).frames().update(
                1 - old(self).active(),
                *final(frame),
            ),
            final(self).duration == old(self).duration,
            final(self).position == old(self).position,
            final(self).is_image == old(self).is_image,
    {
        &mut self.frames[1 - self.active_frame]
    }

    /// Shows the other frame.
    pub fn swap_frames(&mut self)
        requires
            old(self).wf(),
        ensures
            final(self).wf(),
            final(self).active() == 1 - old(self).active(),
            final(self).frames() == old(self).frames(),
            final(self).duration == old(self).duration,
            final(self).position == old(self).position,
            final(self).is_image == old(self).is_image,
    {
        if self.active_frame == 1 {
            self.active_frame = 0;
        } else {
            self.active_frame += 1;
        }
    }

    /// Whether the engine must be asked for the duration at the next sample.
    pub fn needs_duration(&self) -> (r: bool)
        ensures
            r == (self.duration == 0),
    {
        self.duration == 0
    }

    /// Moves the clock for a seek to `time`: the position becomes the
    /// target, but never past the duration. Returns the position to seek
    /// to.
    pub fn seek(&mut self, time: u64) -> (target: u64)
        ensures
            target == earlier(old(self).duration, time),
            final(self).position == target,
            final(self).duration == old(self).duration,
            final(self).is_image == old(self).is_image,
            final(self).active() == old(self).active(),
            final(self).frames() == old(self).frames(),
    {
        let target = if self.duration <= time {
            self.duration
        } else {
            time
        };
        self.position = target;
        target
    }

    /// Moves the clock for a sample: `engine_alive` says whether the engine
    /// is still there, `queried` is the duration it gave when asked, `pts`
    /// the stamp of the sample. Says whether an image has been shown for
    /// its whole length, so that its stream is to be ended.
    pub fn on_sample(&mut self, engine_alive: bool, queried: Option<u64>, pts: Option<u64>) -> (finished:
        bool)
        ensures
            final(self).duration == duration_after(
                old(self).duration,
                old(self).is_image,
                engine_alive,
                queried,
            ),
            final(self).position == position_after(old(self).position, final(self).duration, pts),
            final(self).is_image == old(self).is_image,
            final(self).active() == old(self).active(),
            final(self).frames() == old(self).frames(),
            finished == (engine_alive && final(self).is_image && final(self).position == final(self).duration),
    {
        if self.duration == 0 && engine_alive {
            match queried {
                Some(found) => {
                    self.duration = found;
                },
                None => {
                    if self.is_image {
                        self.duration = IMAGE_DURATION_NS;
                    }
                },
            }
        }
        match pts {
            Some(stamp) => {
                if self.position < stamp {
                    self.position = if self.duration <= stamp {
                        self.duration
                    } else {
                        stamp
                    };
                }
            },
            None => {},
        }
        engine_alive && self.is_image && self.position == self.duration
    }
}

/// A time as the front end shows it: hours, minutes and seconds.
#[derive(Debug, Copy, Clone, PartialEq, Eq, Structural)]
pub struct ClockFields {
    pub hours: u64,
    pub minutes: u64,
    pub seconds: u64,
}

/// The fields of the time `time_ns`, in nanoseconds: the seconds within
/// the minute, and the minutes within the hour where hours are shown, all
/// the minutes where they are not.
pub open spec fn clock_fields(time_ns: u64, show_hours: bool) -> ClockFields {
    ClockFields {
        hours: (time_ns / 3_600_000_000_000) as u64,
        minutes: if show_hours {
            ((time_ns / 60_000_000_000) % 60) as u64
        } else {
            (time_ns / 60_000_000_000) as u64
        },
        seconds: ((time_ns / 1_000_000_000) % 60) as u64,
    }
}

/// Splits a time into the fields the front end shows.
pub fn display_clocktime(time_ns: u64, show_hours: bool) -> (fields: ClockFields)
    ensures
        fields == clock_fields(time_ns, show_hours),
{
    let hours = time_ns / 3_600_000_000_000;
    let mut minutes = time_ns / 60_000_000_000;
    if show_hours {
        minutes = minutes % 60;
    }
    let seconds = (time_ns / 1_000_000_000) % 60;
    ClockFields { hours, minutes, seconds }
}

} // verus!
