//! The project that the editor hands over for a render, and its export
//! settings.
//!
//! Times (`source_start`, `timeline_start`, fades, ...) are counts of
//! microseconds; brightness, contrast, saturation, volume and the text
//! position and size are counts of millionths of a unit.

use vstd::prelude::*;
use crate::text::str_eq;

verus! {

/// The largest magnitude a time or a fixed-point setting may have:
/// a thousand million seconds (over thirty years of media), or a thousand
/// million units. Three such times still add up within `i64`, so every
/// end, gap and delay of a timeline is computed without overflow.
pub const MAX_MAGNITUDE: i64 = 1_000_000_000_000_000;

/// Colour adjustments of a clip, in millionths (0 is neutral).
pub struct Filters {
    pub brightness: i64,
    pub contrast: i64,
    pub saturation: i64,
}

/// A caption drawn over a clip.
pub struct TextOverlay {
    pub text: String,
    /// Horizontal centre as a fraction of the frame width, in millionths.
    pub x: i64,
    /// Vertical centre as a fraction of the frame height, in millionths.
    pub y: i64,
    /// Font size as a fraction of the frame height, in millionths.
    pub font_size: i64,
    pub color: String,
    pub bold: bool,
}

/// One clip on a track.
pub struct Clip {
    pub id: String,
    pub media_id: String,
    pub name: String,
    pub source_start: i64,
    pub source_end: i64,
    pub timeline_start: i64,
    /// Gain in millionths (one million is unchanged).
    pub volume: i64,
    pub filters: Filters,
    pub text_overlay: Option<TextOverlay>,
    pub fade_in: i64,
    pub fade_out: i64,
    pub is_image: Option<bool>,
}

/// A video or audio track.
pub struct Track {
    pub id: String,
    pub track_type: String,
    pub name: String,
    pub clips: Vec<Clip>,
    pub muted: bool,
    pub hidden: bool,
    pub locked: bool,
}

/// A media file of the project's library.
pub struct MediaAsset {
    pub id: String,
    pub path: String,
    pub name: String,
    pub media_type: String,
    pub duration: i64,
}

/// The project: its frame format, its tracks, and its media library keyed
/// by media id.
pub struct Project {
    pub name: String,
    pub width: u32,
    pub height: u32,
    pub fps: u32,
    pub tracks: Vec<Track>,
    pub assets: Vec<(String, MediaAsset)>,
}

/// What the user chose in the export dialog.
pub struct ExportSettings {
    pub output_path: String,
    pub format: String,
    pub video_codec: String,
    pub audio_codec: String,
    pub crf: u32,
    pub preset: String,
    pub width: Option<u32>,
    pub height: Option<u32>,
    pub fps: Option<u32>,
}

/// Whether `v` lies within the magnitude that times and settings may have.
pub open spec fn in_range(v: i64) -> bool {
    -MAX_MAGNITUDE <= v <= MAX_MAGNITUDE
}

/// The numbers of a clip are within range.
pub open spec fn clip_in_range(c: Clip) -> bool {
    &&& in_range(c.source_start)
    &&& in_range(c.source_end)
    &&& in_range(c.timeline_start)
    &&& in_range(c.volume)
    &&& in_range(c.filters.brightness)
    &&& in_range(c.filters.contrast)
    &&& in_range(c.filters.saturation)
    &&& in_range(c.fade_in)
    &&& in_range(c.fade_out)
    &&& (c.text_overlay matches Some(t) ==> in_range(t.x) && in_range(t.y) && in_range(t.font_size))
}

/// The numbers of every clip of every track are within range.
pub open spec fn tracks_in_range(tracks: Seq<Track>) -> bool {
    forall|t: int, c: int|
        0 <= t < tracks.len() && 0 <= c < tracks[t].clips@.len() ==> clip_in_range(
            #[trigger] tracks[t].clips@[c],
        )
}

/// No two entries of the media library have the same key, as in a map.
pub open spec fn keys_unique(assets: Seq<(String, MediaAsset)>) -> bool {
    forall|i: int, j: int|
        #![trigger assets[i], assets[j]]
        0 <= i < j < assets.len() ==> assets[i].0@ != assets[j].0@
}

/// A project as the editor produces it: numbers within range, a media
/// library keyed without repeats, and lists no longer than memory allows.
pub open spec fn project_wf(p: &Project) -> bool {
    &&& tracks_in_range(p.tracks@)
    &&& keys_unique(p.assets@)
    &&& p.tracks@.len() <= usize::MAX
    &&& forall|t: int| 0 <= t < p.tracks@.len() ==> (#[trigger] p.tracks@[t]).clips@.len() <= usize::MAX
}

/// The index of the first library entry with key `key`.
pub open spec fn asset_index_from(assets: Seq<(String, MediaAsset)>, key: Seq<char>, from: int) -> Option<int>
    decreases assets.len() - from,
{
    if from < 0 || from >= assets.len() {
        None
    } else if assets[from].0@ == key {
        Some(from)
    } else {
        asset_index_from(assets, key, from + 1)
    }
}

/// The index of the library entry with key `key`, if there is one.
pub open spec fn asset_index(assets: Seq<(String, MediaAsset)>, key: Seq<char>) -> Option<int> {
    asset_index_from(assets, key, 0)
}

/// What the lookup of a key finds.
pub proof fn lemma_asset_index_from(assets: Seq<(String, MediaAsset)>, key: Seq<char>, from: int)
    requires
        0 <= from,
    ensures
        asset_index_from(assets, key, from) matches Some(i) ==> from <= i < assets.len()
            && assets[i].0@ == key && forall|j: int| from <= j < i ==> assets[j].0@ != key,
        asset_index_from(assets, key, from) is None ==> forall|j: int|
            from <= j < assets.len() ==> assets[j].0@ != key,
    decreases assets.len() - from,
{
    if from < assets.len() && assets[from].0@ != key {
        lemma_asset_index_from(assets, key, from + 1);
    }
}

/// Looks up the media asset of a key (the first entry with that key).
pub fn find_asset(assets: &Vec<(String, MediaAsset)>, key: &str) -> (r: Option<usize>)
    ensures
        r matches Some(i) ==> asset_index(assets@, key@) == Some(i as int) && i < assets@.len(),
        r is None ==> asset_index(assets@, key@) is None,
{
    let mut i: usize = 0;
    while i < assets.len()
        invariant
            i <= assets.len(),
            asset_index(assets@, key@) == asset_index_from(assets@, key@, i as int),
        decreases assets.len() - i,
    {
        if str_eq(assets[i].0.as_str(), key) {
            return Some(i);
        }
        i = i + 1;
    }
    None
}

} // verus!
