use vstd::prelude::*;

verus! {

/// The playback rates the front end offers.
#[derive(Debug, Copy, Clone, PartialEq, Eq, PartialOrd, Ord, Structural)]
pub enum PlaybackSpeed {
    X0_5,
    X1,
    X2,
    X4,
    X8,
    X16,
    X32,
}

impl PlaybackSpeed {
    /// The rate in halves of the normal speed: 1 for x0.5, 2 for x1, 64 for x32.
    pub open spec fn spec_halves(self) -> nat {
        match self {
            PlaybackSpeed::X0_5 => 1,
            PlaybackSpeed::X1 => 2,
            PlaybackSpeed::X2 => 4,
            PlaybackSpeed::X4 => 8,
            PlaybackSpeed::X8 => 16,
            PlaybackSpeed::X16 => 32,
            PlaybackSpeed::X32 => 64,
        }
    }

    /// The label of the rate.
    pub open spec fn label(self) -> Seq<char> {
        match self {
            PlaybackSpeed::X0_5 => "x0.5"@,
            PlaybackSpeed::X1 => "x1"@,
            PlaybackSpeed::X2 => "x2"@,
            PlaybackSpeed::X4 => "x4"@,
            PlaybackSpeed::X8 => "x8"@,
            PlaybackSpeed::X16 => "x16"@,
            PlaybackSpeed::X32 => "x32"@,
        }
    }

    /// Every rate, from the slowest to the fastest.
    pub open spec fn every() -> Seq<PlaybackSpeed> {
        seq![
            PlaybackSpeed::X0_5,
            PlaybackSpeed::X1,
            PlaybackSpeed::X2,
            PlaybackSpeed::X4,
            PlaybackSpeed::X8,
            PlaybackSpeed::X16,
            PlaybackSpeed::X32,
        ]
    }

    /// Every rate, from the slowest to the fastest.
    pub fn all() -> (speeds: [PlaybackSpeed; 7])
        ensures
            speeds@ == PlaybackSpeed::every(),
    {
        let speeds = [
            PlaybackSpeed::X0_5,
            PlaybackSpeed::X1,
            PlaybackSpeed::X2,
            PlaybackSpeed::X4,
            PlaybackSpeed::X8,
            PlaybackSpeed::X16,
            PlaybackSpeed::X32,
        ];
        assert(speeds@ =~= PlaybackSpeed::every());
        speeds
    }

    /// The label of the rate, as the front end shows it.
    pub fn as_str(self) -> (text: &'static str)
        ensures
            text@ == self.label(),
    {
        match self {
            PlaybackSpeed::X0_5 => "x0.5",
            PlaybackSpeed::X1 => "x1",
            PlaybackSpeed::X2 => "x2",
            PlaybackSpeed::X4 => "x4",
            PlaybackSpeed::X8 => "x8",
            PlaybackSpeed::X16 => "x16",
            PlaybackSpeed::X32 => "x32",
        }
    }

    /// The rate as a count of half speeds, so that it stays a whole number.
    pub fn halves(self) -> (r: u32)
        ensures
            r == self.spec_halves(),
    {
        match self {
            PlaybackSpeed::X0_5 => 1,
            PlaybackSpeed::X1 => 2,
            PlaybackSpeed::X2 => 4,
            PlaybackSpeed::X4 => 8,
            PlaybackSpeed::X8 => 16,
            PlaybackSpeed::X16 => 32,
            PlaybackSpeed::X32 => 64,
        }
    }
}

impl Default for PlaybackSpeed {
    /// The normal speed.
    fn default() -> (speed: PlaybackSpeed)
        ensures
            speed == PlaybackSpeed::X1,
    {
        PlaybackSpeed::X1
    }
}

} // verus!
