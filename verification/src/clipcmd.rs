//! The timeline's length, and the FFmpeg arguments that turn one clip into
//! a normalised intermediate stream.

use vstd::prelude::*;
use crate::model::{Clip, Project, Track, clip_in_range, tracks_in_range, MAX_MAGNITUDE};
use crate::numfmt::{abs, decimal, fixed_text, seconds_text};
use crate::text::{chars_of, drawtext_escaped, escape_drawtext, push_char};
use crate::numfmt::{push_decimal, push_fixed, push_seconds, abs_u64};
use crate::args::{texts, push_arg, push_owned};

verus! {

/// The shortest length a clip is given in a render: 50 ms.
pub const MIN_CLIP_US: i64 = 50_000;

/// Where a clip ends on the timeline.
pub open spec fn clip_end(c: Clip) -> int {
    c.timeline_start + (c.source_end - c.source_start)
}

/// The larger of two numbers.
pub open spec fn max(a: int, b: int) -> int {
    if a >= b { a } else { b }
}

/// The latest end among `clips`, and never below zero.
pub open spec fn clips_max_end(clips: Seq<Clip>) -> int
    decreases clips.len(),
{
    if clips.len() == 0 {
        0
    } else {
        max(clips_max_end(clips.drop_last()), clip_end(clips.last()))
    }
}

/// The latest end among the clips of `tracks`, and never below zero.
pub open spec fn tracks_max_end(tracks: Seq<Track>) -> int
    decreases tracks.len(),
{
    if tracks.len() == 0 {
        0
    } else {
        max(tracks_max_end(tracks.drop_last()), clips_max_end(tracks.last().clips@))
    }
}

/// The latest end among clips within range lies between zero and three
/// times the largest magnitude.
proof fn lemma_clips_max_end_bounds(clips: Seq<Clip>)
    requires
        forall|i: int| 0 <= i < clips.len() ==> clip_in_range(#[trigger] clips[i]),
    ensures
        0 <= clips_max_end(clips) <= 3 * MAX_MAGNITUDE,
    decreases clips.len(),
{
    if clips.len() > 0 {
        let d = clips.drop_last();
        assert forall|i: int| 0 <= i < d.len() implies clip_in_range(#[trigger] d[i]) by {
            assert(d[i] == clips[i]);
        }
        lemma_clips_max_end_bounds(d);
        assert(clip_in_range(clips[clips.len() - 1]));
    }
}

/// The length of a timeline within range lies between zero and three times
/// the largest magnitude.
pub proof fn lemma_max_end_bounds(tracks: Seq<Track>)
    requires
        tracks_in_range(tracks),
    ensures
        0 <= tracks_max_end(tracks) <= 3 * MAX_MAGNITUDE,
    decreases tracks.len(),
{
    if tracks.len() > 0 {
        let d = tracks.drop_last();
        assert forall|t: int, c: int| 0 <= t < d.len() && 0 <= c < d[t].clips@.len() implies clip_in_range(#[trigger] d[t].clips@[c]) by {
            assert(d[t] == tracks[t]);
        }
        lemma_max_end_bounds(d);
        let last = tracks.last();
        assert forall|i: int| 0 <= i < last.clips@.len() implies clip_in_range(#[trigger] last.clips@[i]) by {
            assert(clip_in_range(tracks[tracks.len() - 1].clips@[i]));
        }
        lemma_clips_max_end_bounds(last.clips@);
    }
}

/// The latest end among `clips` is no earlier than any of their ends, and
/// is one of them unless it is zero.
proof fn lemma_clips_max_end(clips: Seq<Clip>)
    ensures
        clips_max_end(clips) >= 0,
        forall|c: int| 0 <= c < clips.len() ==> clip_end(#[trigger] clips[c]) <= clips_max_end(clips),
        clips_max_end(clips) == 0 || exists|c: int| 0 <= c < clips.len() && clip_end(#[trigger] clips[c]) == clips_max_end(clips),
    decreases clips.len(),
{
    if clips.len() > 0 {
        let d = clips.drop_last();
        lemma_clips_max_end(d);
        assert forall|c: int| 0 <= c < clips.len() implies clip_end(#[trigger] clips[c]) <= clips_max_end(clips) by {
            if c < d.len() {
                assert(clips[c] == d[c]);
            }
        }
        if clips_max_end(clips) != 0 {
            if clip_end(clips.last()) >= clips_max_end(d) {
                assert(clip_end(clips[clips.len() - 1]) == clips_max_end(clips));
            } else {
                let c = choose|c: int| 0 <= c < d.len() && clip_end(#[trigger] d[c]) == clips_max_end(d);
                assert(clips[c] == d[c]);
            }
        }
    }
}

/// The length of the timeline is no earlier than the end of any clip, and
/// is the end of some clip unless it is zero.
pub proof fn lemma_duration_is_latest_end(tracks: Seq<Track>)
    ensures
        tracks_max_end(tracks) >= 0,
        forall|t: int, c: int|
            0 <= t < tracks.len() && 0 <= c < tracks[t].clips@.len() ==> clip_end(
                #[trigger] tracks[t].clips@[c],
            ) <= tracks_max_end(tracks),
        tracks_max_end(tracks) == 0 || exists|t: int, c: int|
            0 <= t < tracks.len() && 0 <= c < tracks[t].clips@.len() && clip_end(
                #[trigger] tracks[t].clips@[c],
            ) == tracks_max_end(tracks),
    decreases tracks.len(),
{
    if tracks.len() > 0 {
        let d = tracks.drop_last();
        let last = tracks.last();
        lemma_duration_is_latest_end(d);
        lemma_clips_max_end(last.clips@);
        assert forall|t: int, c: int|
            0 <= t < tracks.len() && 0 <= c < tracks[t].clips@.len() implies clip_end(
                #[trigger] tracks[t].clips@[c],
            ) <= tracks_max_end(tracks) by {
            if t < d.len() {
                assert(tracks[t] == d[t]);
            } else {
                assert(tracks[t] == last);
            }
        }
        if tracks_max_end(tracks) != 0 {
            if clips_max_end(last.clips@) >= tracks_max_end(d) {
                let c = choose|c: int| 0 <= c < last.clips@.len() && clip_end(#[trigger] last.clips@[c]) == clips_max_end(last.clips@);
                assert(tracks[tracks.len() - 1] == last);
                assert(clip_end(tracks[tracks.len() - 1].clips@[c]) == tracks_max_end(tracks));
            } else {
                let (t, c) = choose|t: int, c: int| 0 <= t < d.len() && 0 <= c < d[t].clips@.len() && clip_end(#[trigger] d[t].clips@[c]) == tracks_max_end(d);
                assert(tracks[t] == d[t]);
                assert(clip_end(tracks[t].clips@[c]) == tracks_max_end(tracks));
            }
        }
    }
}

/// The length of the timeline: where its last clip ends (zero when empty).
pub fn project_duration(p: &Project) -> (d: i64)
    requires
        tracks_in_range(p.tracks@),
    ensures
        d == tracks_max_end(p.tracks@),
{
    let mut best: i64 = 0;
    let mut t: usize = 0;
    while t < p.tracks.len()
        invariant
            tracks_in_range(p.tracks@),
            t <= p.tracks.len(),
            best == tracks_max_end(p.tracks@.take(t as int)),
            0 <= best <= 3 * MAX_MAGNITUDE,
        decreases p.tracks.len() - t,
    {
        let track = &p.tracks[t];
        let ghost before = best;
        let mut c: usize = 0;
        assert(track.clips@.take(0) =~= Seq::<Clip>::empty());
        while c < track.clips.len()
            invariant
                tracks_in_range(p.tracks@),
                t < p.tracks.len(),
                track == p.tracks@[t as int],
                c <= track.clips.len(),
                best == max(before as int, clips_max_end(track.clips@.take(c as int))),
                0 <= best <= 3 * MAX_MAGNITUDE,
            decreases track.clips.len() - c,
        {
            let clip = &track.clips[c];
            assert(clip_in_range(p.tracks@[t as int].clips@[c as int]));
            let end = clip.timeline_start + (clip.source_end - clip.source_start);
            if end > best {
                best = end;
            }
            assert(track.clips@.take(c + 1).drop_last() =~= track.clips@.take(c as int));
            c = c + 1;
        }
        assert(track.clips@.take(c as int) =~= track.clips@);
        assert(p.tracks@.take(t + 1).drop_last() =~= p.tracks@.take(t as int));
        t = t + 1;
    }
    assert(p.tracks@.take(t as int) =~= p.tracks@);
    best
}

/// Whether `c` is white space (Unicode `White_Space`).
pub open spec fn is_white_space(c: char) -> bool {
    let u = c as u32;
    (9 <= u <= 13) || u == 32 || u == 0x85 || u == 0xa0 || u == 0x1680 || (0x2000 <= u <= 0x200a)
        || u == 0x2028 || u == 0x2029 || u == 0x202f || u == 0x205f || u == 0x3000
}

/// Whether `s` holds nothing but white space.
pub open spec fn is_blank(s: Seq<char>) -> bool {
    forall|i: int| 0 <= i < s.len() ==> is_white_space(#[trigger] s[i])
}

/// Whether `s` holds nothing but white space (its trimmed form is empty).
pub fn blank(s: &str) -> (r: bool)
    ensures
        r == is_blank(s@),
{
    let v = chars_of(s);
    let mut i: usize = 0;
    while i < v.len()
        invariant
            v@ == s@,
            i <= v.len(),
            forall|j: int| 0 <= j < i ==> is_white_space(#[trigger] v@[j]),
        decreases v.len() - i,
    {
        let u = v[i] as u32;
        let w = (9 <= u && u <= 13) || u == 32 || u == 0x85 || u == 0xa0 || u == 0x1680 || (0x2000
            <= u && u <= 0x200a) || u == 0x2028 || u == 0x2029 || u == 0x202f || u == 0x205f || u
            == 0x3000;
        if !w {
            assert(!is_white_space(v@[i as int]));
            return false;
        }
        i = i + 1;
    }
    true
}

/// How long a clip runs in the render: its source span, at least 50 ms.
pub open spec fn clip_duration(c: Clip) -> int {
    max(c.source_end - c.source_start, MIN_CLIP_US as int)
}

/// The fade filters of a clip, for the filter named `name` (`fade` or
/// `afade`).
pub open spec fn fade_part(name: Seq<char>, c: Clip) -> Seq<char> {
    (if c.fade_in > 0 {
        ","@ + name + "=t=in:st=0:d="@ + seconds_text(c.fade_in as int)
    } else {
        seq![]
    }) + (if c.fade_out > 0 {
        ","@ + name + "=t=out:st="@ + seconds_text(clip_duration(c) - c.fade_out) + ":d="@
            + seconds_text(c.fade_out as int)
    } else {
        seq![]
    })
}

/// The font size in pixels of a caption on frames `out_h` pixels high:
/// the product rounded half away from zero, negative sizes giving zero.
pub open spec fn font_pixels(out_h: u32, font_size: i64) -> int {
    let p = out_h * font_size;
    if p <= 0 {
        0
    } else if (p + 500_000) / 1_000_000 > u32::MAX {
        u32::MAX as int
    } else {
        (p + 500_000) / 1_000_000
    }
}

/// The drawtext filter of a caption, when it has any visible text.
pub open spec fn drawtext_part(c: Clip, out_h: u32) -> Seq<char> {
    match c.text_overlay {
        Some(t) => if is_blank(t.text@) {
            seq![]
        } else {
            ",drawtext=text="@ + drawtext_escaped(t.text@) + ":x=(main_w*"@ + fixed_text(t.x as int)
                + ")-tw/2:y=(main_h*"@ + fixed_text(t.y as int) + ")-th/2:fontsize="@ + decimal(
                font_pixels(out_h, t.font_size) as nat,
            ) + ":fontcolor="@ + t.color@
                + ":borderw=2:bordercolor=black@0.6:line_spacing=4"@
        },
        None => seq![],
    }
}

/// The scaling part of a clip's video filter.
pub open spec fn scale_part(out_w: u32, out_h: u32, out_fps: u32) -> Seq<char> {
    "fps="@ + decimal(out_fps as nat) + ",setpts=PTS-STARTPTS,scale="@ + decimal(out_w as nat)
        + ":"@ + decimal(out_h as nat) + ":force_original_aspect_ratio=decrease,pad="@ + decimal(
        out_w as nat,
    ) + ":"@ + decimal(out_h as nat) + ":(ow-iw)/2:(oh-ih)/2:color=black,setsar=1"@
}

/// The colour part of a clip's video filter.
pub open spec fn eq_part(c: Clip) -> Seq<char> {
    ",eq=brightness="@ + fixed_text(c.filters.brightness as int) + ":contrast="@ + fixed_text(
        1_000_000 + c.filters.contrast,
    ) + ":saturation="@ + fixed_text(1_000_000 + c.filters.saturation)
}

/// The video filter of a clip: constant frame rate, fitted into the output
/// frame, colour-adjusted, faded and captioned.
pub open spec fn video_filter(c: Clip, out_w: u32, out_h: u32, out_fps: u32) -> Seq<char> {
    scale_part(out_w, out_h, out_fps) + eq_part(c) + fade_part("fade"@, c) + drawtext_part(c, out_h)
}

/// Whether a clip's gain differs from one by more than a thousandth.
pub open spec fn volume_changed(c: Clip) -> bool {
    abs(c.volume - 1_000_000) > 1000
}

/// The audio filter of a clip.
pub open spec fn audio_filter(c: Clip) -> Seq<char> {
    "aresample=async=1,asetpts=PTS-STARTPTS"@ + (if volume_changed(c) {
        ",volume="@ + fixed_text(c.volume as int)
    } else {
        seq![]
    }) + fade_part("afade"@, c)
}

/// The arguments that read a clip's span of its source.
pub open spec fn input_args(c: Clip, asset_path: Seq<char>, is_image: bool) -> Seq<Seq<char>> {
    if is_image {
        seq!["-loop"@, "1"@, "-t"@, seconds_text(clip_duration(c)), "-i"@, asset_path]
    } else {
        seq![
            "-noautorotate"@,
            "-ss"@,
            seconds_text(c.source_start as int),
            "-t"@,
            seconds_text(clip_duration(c)),
            "-i"@,
            asset_path,
        ]
    }
}

/// The FFmpeg arguments that normalise one clip to a NUT stream written to
/// the file `output`, its only output: frame rate, frame size, filters,
/// and the audio when `include_audio` holds.
pub open spec fn preprocess_args(
    c: Clip,
    asset_path: Seq<char>,
    is_image: bool,
    out_w: u32,
    out_h: u32,
    out_fps: u32,
    include_audio: bool,
    output: Seq<char>,
) -> Seq<Seq<char>> {
    seq!["-y"@] + input_args(c, asset_path, is_image) + seq![
        "-vf"@,
        video_filter(c, out_w, out_h, out_fps),
        "-c:v"@,
        "rawvideo"@,
        "-pix_fmt"@,
        "yuv420p"@,
        "-f"@,
        "nut"@,
    ] + (if include_audio {
        seq!["-af"@, audio_filter(c), "-c:a"@, "pcm_s16le"@]
    } else {
        seq!["-an"@]
    }) + seq![output]
}


/// Appends the fade filters of a clip for the filter named `name`.
fn push_fade_part(s: &mut String, name: &str, c: &Clip)
    requires
        clip_in_range(*c),
    ensures
        final(s)@ == old(s)@ + fade_part(name@, *c),
{
    let ghost start = s@;
    if c.fade_in > 0 {
        s.append(",");
        s.append(name);
        s.append("=t=in:st=0:d=");
        push_seconds(s, c.fade_in);
    }
    let ghost mid = s@;
    assert(mid == start + (if c.fade_in > 0 {
        ","@ + name@ + "=t=in:st=0:d="@ + seconds_text(c.fade_in as int)
    } else {
        seq![]
    }));
    if c.fade_out > 0 {
        let span = c.source_end - c.source_start;
        let dur = if span >= MIN_CLIP_US { span } else { MIN_CLIP_US };
        s.append(",");
        s.append(name);
        s.append("=t=out:st=");
        push_seconds(s, dur - c.fade_out);
        s.append(":d=");
        push_seconds(s, c.fade_out);
    }
    assert(s@ =~= start + fade_part(name@, *c));
}

/// The font size in pixels of a caption on frames `out_h` pixels high.
pub fn font_size_px(out_h: u32, font_size: i64) -> (r: u32)
    requires
        crate::model::in_range(font_size),
    ensures
        r == font_pixels(out_h, font_size),
{
    let h: i128 = out_h as i128;
    let f: i128 = font_size as i128;
    assert(-10_000_000_000_000_000_000_000_000 <= h * f <= 10_000_000_000_000_000_000_000_000)
        by (nonlinear_arith)
        requires
            0 <= h <= 4_294_967_295,
            -1_000_000_000_000_000 <= f <= 1_000_000_000_000_000,
    ;
    let p: i128 = h * f;
    if p <= 0 {
        0
    } else {
        let q = (p + 500_000) / 1_000_000;
        if q > u32::MAX as i128 {
            u32::MAX
        } else {
            q as u32
        }
    }
}

/// Appends the drawtext filter of a clip's caption, if it has visible text.
fn push_drawtext_part(s: &mut String, c: &Clip, out_h: u32)
    requires
        clip_in_range(*c),
    ensures
        final(s)@ == old(s)@ + drawtext_part(*c, out_h),
{
    let ghost start = s@;
    match &c.text_overlay {
        Some(t) => {
            if !blank(t.text.as_str()) {
                s.append(",drawtext=text=");
                let esc = escape_drawtext(t.text.as_str());
                s.append(esc.as_str());
                s.append(":x=(main_w*");
                push_fixed(s, t.x);
                s.append(")-tw/2:y=(main_h*");
                push_fixed(s, t.y);
                s.append(")-th/2:fontsize=");
                let px = font_size_px(out_h, t.font_size);
                push_decimal(s, px as u64);
                s.append(":fontcolor=");
                s.append(t.color.as_str());
                s.append(":borderw=2:bordercolor=black@0.6:line_spacing=4");
            }
        },
        None => {},
    }
    assert(s@ =~= start + drawtext_part(*c, out_h));
}

/// The video filter of a clip.
pub fn video_filter_text(c: &Clip, out_w: u32, out_h: u32, out_fps: u32) -> (r: String)
    requires
        clip_in_range(*c),
    ensures
        r@ == video_filter(*c, out_w, out_h, out_fps),
{
    let mut s = String::new();
    s.append("fps=");
    push_decimal(&mut s, out_fps as u64);
    s.append(",setpts=PTS-STARTPTS,scale=");
    push_decimal(&mut s, out_w as u64);
    s.append(":");
    push_decimal(&mut s, out_h as u64);
    s.append(":force_original_aspect_ratio=decrease,pad=");
    push_decimal(&mut s, out_w as u64);
    s.append(":");
    push_decimal(&mut s, out_h as u64);
    s.append(":(ow-iw)/2:(oh-ih)/2:color=black,setsar=1");
    let ghost a = s@;
    assert(a =~= scale_part(out_w, out_h, out_fps));
    s.append(",eq=brightness=");
    push_fixed(&mut s, c.filters.brightness);
    s.append(":contrast=");
    push_fixed(&mut s, 1_000_000 + c.filters.contrast);
    s.append(":saturation=");
    push_fixed(&mut s, 1_000_000 + c.filters.saturation);
    let ghost b = s@;
    assert(b =~= a + eq_part(*c));
    push_fade_part(&mut s, "fade", c);
    push_drawtext_part(&mut s, c, out_h);
    assert(s@ =~= video_filter(*c, out_w, out_h, out_fps));
    s
}

/// The audio filter of a clip.
pub fn audio_filter_text(c: &Clip) -> (r: String)
    requires
        clip_in_range(*c),
    ensures
        r@ == audio_filter(*c),
{
    let mut s = String::new();
    s.append("aresample=async=1,asetpts=PTS-STARTPTS");
    let ghost a = s@;
    if abs_u64(c.volume - 1_000_000) > 1000 {
        s.append(",volume=");
        push_fixed(&mut s, c.volume);
    }
    let ghost b = s@;
    assert(b =~= a + (if volume_changed(*c) {
        ",volume="@ + fixed_text(c.volume as int)
    } else {
        seq![]
    }));
    push_fade_part(&mut s, "afade", c);
    assert(s@ =~= audio_filter(*c));
    s
}

/// The FFmpeg arguments that normalise one clip to a NUT stream written to
/// the file `output`. The audio is kept when both `include_audio` and
/// `has_audio` hold, and left out otherwise.
pub fn build_preprocess_args(
    c: &Clip,
    asset_path: &str,
    is_image: bool,
    has_audio: bool,
    out_w: u32,
    out_h: u32,
    out_fps: u32,
    include_audio: bool,
    output: &str,
) -> (r: Vec<String>)
    requires
        clip_in_range(*c),
    ensures
        texts(r@) == preprocess_args(
            *c,
            asset_path@,
            is_image,
            out_w,
            out_h,
            out_fps,
            include_audio && has_audio,
            output@,
        ),
{
    let span = c.source_end - c.source_start;
    let dur = if span >= MIN_CLIP_US { span } else { MIN_CLIP_US };
    let mut a: Vec<String> = Vec::new();
    push_arg(&mut a, "-y");
    if is_image {
        push_arg(&mut a, "-loop");
        push_arg(&mut a, "1");
        push_arg(&mut a, "-t");
        let mut d = String::new();
        push_seconds(&mut d, dur);
        push_owned(&mut a, d);
        push_arg(&mut a, "-i");
        push_arg(&mut a, asset_path);
    } else {
        push_arg(&mut a, "-noautorotate");
        push_arg(&mut a, "-ss");
        let mut st = String::new();
        push_seconds(&mut st, c.source_start);
        push_owned(&mut a, st);
        push_arg(&mut a, "-t");
        let mut d = String::new();
        push_seconds(&mut d, dur);
        push_owned(&mut a, d);
        push_arg(&mut a, "-i");
        push_arg(&mut a, asset_path);
    }
    let ghost p1 = texts(a@);
    assert(p1 =~= seq!["-y"@] + input_args(*c, asset_path@, is_image));
    push_arg(&mut a, "-vf");
    push_owned(&mut a, video_filter_text(c, out_w, out_h, out_fps));
    push_arg(&mut a, "-c:v");
    push_arg(&mut a, "rawvideo");
    push_arg(&mut a, "-pix_fmt");
    push_arg(&mut a, "yuv420p");
    push_arg(&mut a, "-f");
    push_arg(&mut a, "nut");
    if include_audio && has_audio {
        push_arg(&mut a, "-af");
        push_owned(&mut a, audio_filter_text(c));
        push_arg(&mut a, "-c:a");
        push_arg(&mut a, "pcm_s16le");
    } else {
        push_arg(&mut a, "-an");
    }
    push_arg(&mut a, output);
    assert(texts(a@) =~= preprocess_args(
        *c,
        asset_path@,
        is_image,
        out_w,
        out_h,
        out_fps,
        include_audio && has_audio,
        output@,
    ));
    a
}

} // verus!
