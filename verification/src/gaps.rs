//! The second phase of a render: the main track laid out on the timeline,
//! black filler for the holes between its clips, and the concat list that
//! strings it all together.

use vstd::prelude::*;
use crate::args::{texts, push_arg, push_owned};
use crate::clipcmd::{clip_duration, tracks_max_end, MIN_CLIP_US};
use crate::collect::{RenderClip, CollectedClips, collected_track};
use crate::model::{Project, tracks_in_range, clip_in_range};
use crate::numfmt::{decimal, seconds_text, millis_text, push_decimal, push_seconds, push_millis};
use crate::plan::{clip_of, collected_wf, nut_for, work_file, key_views, nut_keys, lookup_nut, last_key};
use crate::text::push_char;

verus! {

/// The smallest hole between clips that is filled with black: 20 ms.
pub const MIN_GAP_US: i64 = 20_000;

/// A stretch of black frames and silence to generate.
pub struct GapJob {
    /// FFmpeg arguments; the last one is the file written.
    pub args: Vec<String>,
    /// The file written.
    pub output: String,
}

/// The main track laid out: the filler to generate, in order, the filler
/// that closes the timeline, and the files of the concat list.
pub struct Layout {
    pub gaps: Vec<GapJob>,
    pub trailing_gap: Option<GapJob>,
    pub entries: Vec<String>,
}

/// The file of the filler that starts at `cursor` microseconds.
pub open spec fn gap_file(dir: Seq<char>, sep: char, cursor: int) -> Seq<char> {
    work_file(dir, sep, "gap_"@ + millis_text(cursor) + ".nut"@)
}

/// The file of the filler at the end of the timeline.
pub open spec fn trailing_gap_file(dir: Seq<char>, sep: char) -> Seq<char> {
    work_file(dir, sep, "gap_trailing.nut"@)
}

/// The black video source of a filler of `gap` microseconds.
pub open spec fn black_source(w: u32, h: u32, fps: u32, gap: int) -> Seq<char> {
    "color=c=black:s="@ + decimal(w as nat) + "x"@ + decimal(h as nat) + ":d="@ + seconds_text(gap)
        + ":r="@ + decimal(fps as nat)
}

/// The silent audio source of a filler (its rate reads the frame rate
/// followed by two zeros).
pub open spec fn silent_source(fps: u32) -> Seq<char> {
    "anullsrc=r="@ + decimal(fps as nat) + "00:cl=stereo"@
}

/// The FFmpeg arguments that write `gap` microseconds of filler to `path`.
pub open spec fn gap_args(w: u32, h: u32, fps: u32, gap: int, path: Seq<char>) -> Seq<Seq<char>> {
    seq![
        "-y"@,
        "-f"@,
        "lavfi"@,
        "-i"@,
        black_source(w, h, fps, gap),
        "-f"@,
        "lavfi"@,
        "-i"@,
        silent_source(fps),
        "-t"@,
        seconds_text(gap),
        "-c:v"@,
        "rawvideo"@,
        "-pix_fmt"@,
        "yuv420p"@,
        "-c:a"@,
        "pcm_s16le"@,
        "-f"@,
        "nut"@,
        path,
    ]
}

/// The layout of the first `n` clips of the main track `main`: where the
/// timeline stands after them, the filler argument lists, and the concat
/// entries. Before each clip, a hole of more than 20 ms since the end of
/// the previous clip gets filler; then comes the clip's intermediate, if it
/// has one.
pub open spec fn walk(
    p: Project,
    answers: Seq<bool>,
    main: Seq<RenderClip>,
    n: int,
    w: u32,
    h: u32,
    fps: u32,
    dir: Seq<char>,
    sep: char,
) -> (int, Seq<Seq<Seq<char>>>, Seq<Seq<char>>)
    decreases n,
{
    if n <= 0 {
        (0, seq![], seq![])
    } else {
        let (cursor, gaps, entries) = walk(p, answers, main, n - 1, w, h, fps, dir, sep);
        let c = clip_of(p, main[n - 1]);
        let gap = c.timeline_start - cursor;
        let path = gap_file(dir, sep, cursor);
        let gaps2 = if gap > MIN_GAP_US { gaps.push(gap_args(w, h, fps, gap, path)) } else { gaps };
        let entries2 = if gap > MIN_GAP_US { entries.push(path) } else { entries };
        let entries3 = match nut_for(p, answers, dir, sep, c.id@) {
            Some(f) => entries2.push(f),
            None => entries2,
        };
        (c.timeline_start + clip_duration(c), gaps2, entries3)
    }
}

/// The clips of the main track, if there is one.
pub open spec fn main_clips(p: Project, answers: Seq<bool>, main: Option<int>) -> Seq<RenderClip> {
    match main {
        Some(t) => collected_track(p, t, answers),
        None => seq![],
    }
}

/// The views of filler jobs: their argument lists.
pub open spec fn gap_views(v: Seq<GapJob>) -> Seq<Seq<Seq<char>>> {
    v.map_values(|g: GapJob| texts(g.args@))
}

/// Whether a filler job writes where its last argument says.
pub open spec fn gap_wf(g: GapJob) -> bool {
    g.args@.len() > 0 && g.output@ == g.args@.last()@
}

/// The argument list of the filler that closes the timeline: when the
/// main track ends more than 20 ms before the timeline does.
pub open spec fn trailing_args(cursor: int, total: int, w: u32, h: u32, fps: u32, dir: Seq<char>, sep: char) -> Option<Seq<Seq<char>>> {
    if cursor < total - MIN_GAP_US {
        Some(gap_args(w, h, fps, total - cursor, trailing_gap_file(dir, sep)))
    } else {
        None
    }
}

/// One concat-list line: `file '<path>'` with backslashes turned into
/// slashes.
pub open spec fn concat_line(e: Seq<char>) -> Seq<char> {
    "file '"@ + e.map_values(|c: char| if c == '\\' { '/' } else { c }) + "'\n"@
}

/// The concat list of `entries`, one line per file.
pub open spec fn concat_text(entries: Seq<Seq<char>>) -> Seq<char>
    decreases entries.len(),
{
    if entries.len() == 0 {
        seq![]
    } else {
        concat_text(entries.drop_last()) + concat_line(entries.last())
    }
}

/// The FFmpeg arguments that write `gap` microseconds of filler to `path`.
fn gap_job(w: u32, h: u32, fps: u32, gap: i64, path: String) -> (r: GapJob)
    ensures
        texts(r.args@) == gap_args(w, h, fps, gap as int, path@),
        gap_wf(r),
{
    let mut a: Vec<String> = Vec::new();
    push_arg(&mut a, "-y");
    push_arg(&mut a, "-f");
    push_arg(&mut a, "lavfi");
    push_arg(&mut a, "-i");
    let mut src = String::from_str("color=c=black:s=");
    push_decimal(&mut src, w as u64);
    src.append("x");
    push_decimal(&mut src, h as u64);
    src.append(":d=");
    push_seconds(&mut src, gap);
    src.append(":r=");
    push_decimal(&mut src, fps as u64);
    assert(src@ =~= black_source(w, h, fps, gap as int));
    push_owned(&mut a, src);
    push_arg(&mut a, "-f");
    push_arg(&mut a, "lavfi");
    push_arg(&mut a, "-i");
    let mut sil = String::from_str("anullsrc=r=");
    push_decimal(&mut sil, fps as u64);
    sil.append("00:cl=stereo");
    assert(sil@ =~= silent_source(fps));
    push_owned(&mut a, sil);
    push_arg(&mut a, "-t");
    let mut d = String::new();
    push_seconds(&mut d, gap);
    assert(d@ =~= seconds_text(gap as int));
    push_owned(&mut a, d);
    push_arg(&mut a, "-c:v");
    push_arg(&mut a, "rawvideo");
    push_arg(&mut a, "-pix_fmt");
    push_arg(&mut a, "yuv420p");
    push_arg(&mut a, "-c:a");
    push_arg(&mut a, "pcm_s16le");
    push_arg(&mut a, "-f");
    push_arg(&mut a, "nut");
    push_owned(&mut a, path.clone());
    assert(texts(a@) =~= gap_args(w, h, fps, gap as int, path@));
    assert(a@.last()@ == texts(a@).last());
    GapJob { args: a, output: path }
}

/// The file of the filler that starts at `cursor` microseconds.
fn gap_path(dir: &str, sep: char, cursor: i64) -> (r: String)
    ensures
        r@ == gap_file(dir@, sep, cursor as int),
{
    let mut s = crate::plan::dir_prefix_text(dir, sep);
    s.append("gap_");
    push_millis(&mut s, cursor);
    s.append(".nut");
    assert(s@ =~= gap_file(dir@, sep, cursor as int));
    s
}

/// Lays out the main track: filler for the holes before its clips, then
/// each clip's intermediate, and filler up to `total` at the end.
pub fn layout_main_track(
    p: &Project,
    c: &CollectedClips,
    keys: &Vec<(String, usize)>,
    main: Option<usize>,
    total: i64,
    w: u32,
    h: u32,
    fps: u32,
    dir: &str,
    sep: char,
    Ghost(answers): Ghost<Seq<bool>>,
) -> (r: Layout)
    requires
        tracks_in_range(p.tracks@),
        collected_wf(*p, *c),
        forall|t: int| 0 <= t < p.tracks@.len() ==> #[trigger] c.tracks@[t]@ == collected_track(*p, t, answers),
        key_views(keys@) == nut_keys(*p, answers),
        main matches Some(t) ==> t < p.tracks@.len(),
        total == tracks_max_end(p.tracks@),
    ensures
        ({
            let m = main_clips(*p, answers, match main { Some(t) => Some(t as int), None => None });
            let (cursor, gaps, entries) = walk(*p, answers, m, m.len() as int, w, h, fps, dir@, sep);
            &&& gap_views(r.gaps@) == gaps
            &&& forall|i: int| 0 <= i < r.gaps@.len() ==> gap_wf(#[trigger] r.gaps@[i])
            &&& match trailing_args(cursor, total as int, w, h, fps, dir@, sep) {
                Some(a) => r.trailing_gap matches Some(g) && texts(g.args@) == a && gap_wf(g)
                    && texts(r.entries@) == entries.push(trailing_gap_file(dir@, sep)),
                None => r.trailing_gap is None && texts(r.entries@) == entries,
            }
        }),
{
    let ghost m = main_clips(*p, answers, match main { Some(t) => Some(t as int), None => None });
    let empty: Vec<RenderClip> = Vec::new();
    let clips: &Vec<RenderClip> = match main {
        Some(t) => &c.tracks[t],
        None => &empty,
    };
    assert(clips@ == m);
    let mut gaps: Vec<GapJob> = Vec::new();
    let mut entries: Vec<String> = Vec::new();
    let mut cursor: i64 = 0;
    let mut i: usize = 0;
    while i < clips.len()
        invariant
            tracks_in_range(p.tracks@),
            collected_wf(*p, *c),
            forall|t: int| 0 <= t < p.tracks@.len() ==> #[trigger] c.tracks@[t]@ == collected_track(*p, t, answers),
            key_views(keys@) == nut_keys(*p, answers),
            clips@ == m,
            main matches Some(t) ==> t < p.tracks@.len() && clips == c.tracks@[t as int],
            main is None ==> clips@.len() == 0,
            i <= clips.len(),
            walk(*p, answers, m, i as int, w, h, fps, dir@, sep) == (cursor as int, gap_views(gaps@), texts(entries@)),
            forall|k: int| 0 <= k < gaps@.len() ==> gap_wf(#[trigger] gaps@[k]),
            -1_000_000_000_000_000 <= cursor <= 3 * 1_000_000_000_000_000 + 1,
        decreases clips.len() - i,
    {
        let rc = &clips[i];
        let ghost mt = main->0 as int;
        assert(rc.track == mt && rc.clip < p.tracks@[mt].clips@.len());
        let clip = &p.tracks[rc.track].clips[rc.clip];
        assert(clip_in_range(*clip));
        let gap = clip.timeline_start - cursor;
        let ghost before_g = gaps@;
        if gap > MIN_GAP_US {
            let path = gap_path(dir, sep, cursor);
            let job = gap_job(w, h, fps, gap, path.clone());
            gaps.push(job);
            push_owned(&mut entries, path);
            assert(gap_views(gaps@) =~= gap_views(before_g).push(gap_args(w, h, fps, gap as int, gap_file(dir@, sep, cursor as int))));
        }
        match lookup_nut(keys, clip.id.as_str(), dir, sep) {
            Some(f) => {
                push_owned(&mut entries, f);
            },
            None => {},
        }
        let span = clip.source_end - clip.source_start;
        let dur = if span >= MIN_CLIP_US { span } else { MIN_CLIP_US };
        cursor = clip.timeline_start + dur;
        proof {
            let (c0, g0, e0) = walk(*p, answers, m, i as int, w, h, fps, dir@, sep);
            assert(clip_of(*p, m[i as int]) == *clip);
            assert(walk(*p, answers, m, i + 1, w, h, fps, dir@, sep) == (cursor as int, gap_views(gaps@), texts(entries@)));
        }
        i = i + 1;
    }
    proof {
        crate::clipcmd::lemma_max_end_bounds(p.tracks@);
    }
    let trailing_gap = if cursor < total - MIN_GAP_US {
        let mut path = crate::plan::dir_prefix_text(dir, sep);
        path.append("gap_trailing.nut");
        assert(path@ =~= trailing_gap_file(dir@, sep));
        let job = gap_job(w, h, fps, total - cursor, path.clone());
        push_owned(&mut entries, path);
        Some(job)
    } else {
        None
    };
    Layout { gaps, trailing_gap, entries }
}


/// Appends one concat-list line for the file `e`.
fn push_concat_line(s: &mut String, e: &str)
    ensures
        final(s)@ == old(s)@ + concat_line(e@),
{
    let ghost start = s@;
    s.append("file '");
    let v = crate::text::chars_of(e);
    let ghost mid = s@;
    let mut i: usize = 0;
    while i < v.len()
        invariant
            v@ == e@,
            i <= v.len(),
            s@ == mid + v@.take(i as int).map_values(|c: char| if c == '\\' { '/' } else { c }),
        decreases v.len() - i,
    {
        let c = v[i];
        push_char(s, if c == '\\' { '/' } else { c });
        assert(v@.take(i + 1).map_values(|c: char| if c == '\\' { '/' } else { c }) =~= v@.take(i as int).map_values(|c: char| if c == '\\' { '/' } else { c }).push(if c == '\\' { '/' } else { c }));
        i = i + 1;
    }
    assert(v@.take(i as int) =~= e@);
    s.append("'\n");
    assert(s@ =~= start + concat_line(e@));
}

/// The concat list of `entries`: a line `file '<path>'` per file, with
/// backslashes turned into slashes.
pub fn concat_list(entries: &Vec<String>) -> (r: String)
    ensures
        r@ == concat_text(texts(entries@)),
{
    let mut s = String::new();
    let mut i: usize = 0;
    assert(texts(entries@).take(0) =~= Seq::<Seq<char>>::empty());
    while i < entries.len()
        invariant
            i <= entries.len(),
            s@ == concat_text(texts(entries@).take(i as int)),
        decreases entries.len() - i,
    {
        push_concat_line(&mut s, entries[i].as_str());
        assert(texts(entries@).take(i + 1).drop_last() =~= texts(entries@).take(i as int));
        assert(texts(entries@).take(i + 1).last() == entries@[i as int]@);
        i = i + 1;
    }
    assert(texts(entries@).take(i as int) =~= texts(entries@));
    s
}

/// The main track keeps every clip at its place on the timeline: after a
/// clip the layout stands at the clip's start plus the span it plays (at
/// least 50 ms), and a clip is preceded by black filler exactly when it
/// starts more than 20 ms after the end of the clip before it (or after
/// the timeline's start, for the first); the filler lasts that hole, is
/// written to the file named after where the hole starts, and comes in
/// the concat list just before the clip.
pub proof fn lemma_main_track_timing(
    p: Project,
    answers: Seq<bool>,
    main: Seq<RenderClip>,
    n: int,
    w: u32,
    h: u32,
    fps: u32,
    dir: Seq<char>,
    sep: char,
)
    requires
        1 <= n <= main.len(),
    ensures
        ({
            let before = walk(p, answers, main, n - 1, w, h, fps, dir, sep);
            let after = walk(p, answers, main, n, w, h, fps, dir, sep);
            let b = clip_of(p, main[n - 1]);
            let span = b.source_end - b.source_start;
            let prev_end = if n == 1 {
                0
            } else {
                let a = clip_of(p, main[n - 2]);
                let sa = a.source_end - a.source_start;
                a.timeline_start + if sa >= 50_000 { sa } else { 50_000 }
            };
            let hole = b.timeline_start - prev_end;
            &&& after.0 == b.timeline_start + if span >= 50_000 { span } else { 50_000 }
            &&& hole > 20_000 ==> after.1 == before.1.push(gap_args(w, h, fps, hole, gap_file(dir, sep, prev_end)))
                && after.2.take(before.2.len() + 1int) == before.2.push(gap_file(dir, sep, prev_end))
            &&& hole <= 20_000 ==> after.1 == before.1 && after.2.take(before.2.len() as int) == before.2
        }),
{
    let before = walk(p, answers, main, n - 1, w, h, fps, dir, sep);
    let after = walk(p, answers, main, n, w, h, fps, dir, sep);
    if n >= 2 {
        let earlier = walk(p, answers, main, n - 2, w, h, fps, dir, sep);
        assert(before.0 == clip_of(p, main[n - 2]).timeline_start + clip_duration(clip_of(p, main[n - 2])));
    } else {
        assert(before.0 == 0);
    }
    let b = clip_of(p, main[n - 1]);
    let hole = b.timeline_start - before.0;
    let e2 = if hole > MIN_GAP_US { before.2.push(gap_file(dir, sep, before.0)) } else { before.2 };
    assert(after.2 == e2 || after.2 == e2.push(after.2.last()));
    assert(after.2.take(e2.len() as int) =~= e2);
}

} // verus!
