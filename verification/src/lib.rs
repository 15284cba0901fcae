//! Supply-and-scheduling core of a random media player.
//!
//! - [`random_files`]: draws one file with equal chance from the walks of
//!   any number of roots, within a time budget.
//! - [`path_cache`]: a bounded guard against handing out a file that is
//!   still outstanding.
//! - [`roots`]: the roots to draw from, in use or set aside.
//! - [`feeder`], [`preroll`], [`queue`]: the three stages that discover
//!   files, drive their engines to the paused state and queue them for the
//!   front end; [`supply`] holds the last two together, so that no engine
//!   is in two places.
//! - [`pipeline`]: engines as the stages see them, and the pool of workers
//!   that owns them.
//! - [`request`], [`file_kind`], [`queue_stats`], [`media_type`],
//!   [`playback_speed`]: what a front end needs around the queue.
//! - [`trusted`]: what is assumed of code that is not verified here.
//!
//! The library holds no thread, no clock and no file: paths are text, times
//! are milliseconds or nanoseconds, and an engine is whatever the caller
//! hangs on a [`pipeline::Pipeline`].

pub mod feeder;
pub mod file_kind;
pub mod media_type;
pub mod path_cache;
pub mod pipeline;
pub mod playback_speed;
pub mod preroll;
pub mod queue;
pub mod queue_stats;
pub mod random_files;
pub mod request;
pub mod roots;
pub mod supply;
pub mod trusted;
