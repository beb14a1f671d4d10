//! Timeline rendering and media-probing logic of the Kantan video editor:
//! the FFmpeg argument lists, filter graphs and concat lists that a render
//! needs, the order of its FFmpeg runs, the summary of an ffprobe report,
//! where the FFmpeg tools are looked for, and the small text formats that
//! go with all of these.
//!
//! Times are counts of microseconds and other fractional settings counts
//! of millionths, so that every number the library prints or reads is
//! exact.

/// Character-level helpers and the drawtext escaping.
pub mod text;
/// Decimal text of integers and fixed-point numbers.
pub mod numfmt;
/// The project and export settings.
pub mod model;
/// Building argument lists.
pub mod args;
/// The timeline's length and the normalising arguments of one clip.
pub mod clipcmd;
/// The clips of each track that take part in a render.
pub mod collect;
/// The normalising jobs and the map from clips to intermediates.
pub mod plan;
/// The main track's filler and the concat list.
pub mod gaps;
/// The filter graph and arguments of the final encode.
pub mod graph;
/// The whole render plan.
pub mod render;
/// Reading decimal seconds and FFmpeg progress lines.
pub mod timecode;
/// ffprobe reports and thumbnails.
pub mod probe;
/// Finding and describing the FFmpeg tools.
pub mod ffmpeg;
/// The order of a render's FFmpeg runs.
pub mod runner;
