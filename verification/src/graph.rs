//! The last phase of a render: the concatenated main track, the other
//! visible video tracks laid over it, the audio tracks mixed in, and the
//! final encode.

use vstd::prelude::*;
use crate::args::{texts, push_arg, push_owned};
use crate::clipcmd::{clip_duration, MIN_CLIP_US};
use crate::collect::{RenderClip, CollectedClips, collected_track};
use crate::model::{Project, ExportSettings, tracks_in_range, clip_in_range, project_wf};
use crate::numfmt::{decimal, seconds_text, push_decimal, push_decimal_wide, push_seconds};
use crate::plan::{clip_of, collected_wf, nut_for, key_views, nut_keys, lookup_nut, visible_video, is_written, lemma_nut_for_written};
use crate::text::{chars_of, str_eq};

verus! {

/// An extra input of the final encode: an intermediate file and the clip
/// (track index, clip index) it stands for.
pub open spec fn item_view(i: (String, usize, usize)) -> (Seq<char>, int, int) {
    (i.0@, i.1 as int, i.2 as int)
}

/// The views of a list of extra inputs.
pub open spec fn item_views(v: Seq<(String, usize, usize)>) -> Seq<(Seq<char>, int, int)> {
    v.map_values(|i: (String, usize, usize)| item_view(i))
}

/// The extra inputs of the clips `s`: those that have an intermediate.
pub open spec fn track_inputs(
    p: Project,
    answers: Seq<bool>,
    dir: Seq<char>,
    sep: char,
    s: Seq<RenderClip>,
) -> Seq<(Seq<char>, int, int)>
    decreases s.len(),
{
    if s.len() == 0 {
        seq![]
    } else {
        track_inputs(p, answers, dir, sep, s.drop_last()) + match nut_for(
            p,
            answers,
            dir,
            sep,
            clip_of(p, s.last()).id@,
        ) {
            Some(f) => seq![(f, s.last().track as int, s.last().clip as int)],
            None => seq![],
        }
    }
}

/// Whether track `t` is laid over the main track `main_t`: a visible
/// video track other than it.
pub open spec fn is_overlay_track(p: Project, t: int, main_t: int) -> bool {
    t != main_t && visible_video(p.tracks@[t])
}

/// Whether track `t` is mixed into the sound: an audio track not muted.
pub open spec fn is_mixed_track(p: Project, t: int) -> bool {
    p.tracks@[t].track_type@ == "audio"@ && !p.tracks@[t].muted
}

/// The overlay inputs of the first `n` tracks.
pub open spec fn overlays_upto(p: Project, answers: Seq<bool>, dir: Seq<char>, sep: char, main_t: int, n: int) -> Seq<(Seq<char>, int, int)>
    decreases n,
{
    if n <= 0 {
        seq![]
    } else {
        overlays_upto(p, answers, dir, sep, main_t, n - 1) + if is_overlay_track(p, n - 1, main_t) {
            track_inputs(p, answers, dir, sep, collected_track(p, n - 1, answers))
        } else {
            seq![]
        }
    }
}

/// The audio inputs of the first `n` tracks.
pub open spec fn mixes_upto(p: Project, answers: Seq<bool>, dir: Seq<char>, sep: char, n: int) -> Seq<(Seq<char>, int, int)>
    decreases n,
{
    if n <= 0 {
        seq![]
    } else {
        mixes_upto(p, answers, dir, sep, n - 1) + if is_mixed_track(p, n - 1) {
            track_inputs(p, answers, dir, sep, collected_track(p, n - 1, answers))
        } else {
            seq![]
        }
    }
}

/// The clip of an extra input.
pub open spec fn item_clip(p: Project, i: (Seq<char>, int, int)) -> crate::model::Clip {
    p.tracks@[i.1].clips@[i.2]
}

/// The label of the `i`-th overlay stream.
pub open spec fn ov_label(i: nat) -> Seq<char> {
    "ov"@ + decimal(i)
}

/// The label of the picture after the `i`-th overlay.
pub open spec fn ovr_label(i: nat) -> Seq<char> {
    "ovr"@ + decimal(i)
}

/// The picture that the `i`-th overlay goes on: the concatenated main
/// track for the first, the result of the one before otherwise.
pub open spec fn under_label(i: nat) -> Seq<char> {
    if i == 0 { "0:v"@ } else { ovr_label((i - 1) as nat) }
}

/// The filter that delays the `i`-th overlay stream to its clip's place on
/// the timeline.
pub open spec fn delay_part(i: nat, c: crate::model::Clip) -> Seq<char> {
    "["@ + decimal(i + 1) + ":v]setpts=PTS+"@ + seconds_text(c.timeline_start as int) + "/TB["@
        + ov_label(i) + "];"@
}

/// The filter that lays the `i`-th overlay stream over the picture while
/// its clip runs.
pub open spec fn lay_part(i: nat, c: crate::model::Clip) -> Seq<char> {
    "["@ + under_label(i) + "]["@ + ov_label(i) + "]overlay=x=0:y=0:enable='between(t,"@
        + seconds_text(c.timeline_start as int) + ","@ + seconds_text(
        c.timeline_start + clip_duration(c),
    ) + ")':format=auto["@ + ovr_label(i) + "];"@
}

/// The filters of the `i`-th overlay: its stream delayed to its place on
/// the timeline, then laid over the picture while the clip runs.
pub open spec fn overlay_part(p: Project, i: nat, item: (Seq<char>, int, int)) -> Seq<char> {
    delay_part(i, item_clip(p, item)) + lay_part(i, item_clip(p, item))
}

/// The filters of the first `n` overlays.
pub open spec fn overlays_text(p: Project, items: Seq<(Seq<char>, int, int)>, n: int) -> Seq<char>
    decreases n,
{
    if n <= 0 {
        seq![]
    } else {
        overlays_text(p, items, n - 1) + overlay_part(p, (n - 1) as nat, items[n - 1])
    }
}

/// A position on the timeline in whole milliseconds, rounded half away
/// from zero; a position before the start counts as zero.
pub open spec fn delay_ms(us: int) -> nat {
    if us <= 0 { 0 } else { ((us + 500) / 1000) as nat }
}

/// The filters of the `i`-th mixed input, whose stream is input `k + i + 1`:
/// delayed to its place on the timeline.
pub open spec fn mix_part(p: Project, k: nat, i: nat, item: (Seq<char>, int, int)) -> Seq<char> {
    let c = item_clip(p, item);
    let ms = delay_ms(c.timeline_start as int);
    "["@ + decimal(k + i + 1) + ":a]adelay="@ + decimal(ms) + "|"@ + decimal(ms) + ",asetpts=PTS+"@
        + seconds_text(c.timeline_start as int) + "/TB[ao"@ + decimal(i) + "];"@
}

/// The filters of the first `n` mixed inputs, after `k` overlays.
pub open spec fn mixes_text(p: Project, k: nat, items: Seq<(Seq<char>, int, int)>, n: int) -> Seq<char>
    decreases n,
{
    if n <= 0 {
        seq![]
    } else {
        mixes_text(p, k, items, n - 1) + mix_part(p, k, (n - 1) as nat, items[n - 1])
    }
}

/// The labels of the first `n` mixed streams, each in brackets.
pub open spec fn mix_labels(n: int) -> Seq<char>
    decreases n,
{
    if n <= 0 {
        seq![]
    } else {
        mix_labels(n - 1) + "[ao"@ + decimal((n - 1) as nat) + "]"@
    }
}

/// The sound of the render: the main track's sound mixed with the delayed
/// audio inputs, or passed through when there are none.
pub open spec fn sound_text(p: Project, k: nat, mixes: Seq<(Seq<char>, int, int)>) -> Seq<char> {
    if mixes.len() > 0 {
        mixes_text(p, k, mixes, mixes.len() as int) + "[0:a]"@ + mix_labels(mixes.len() as int)
            + "amix=inputs="@ + decimal(mixes.len() + 1) + ":duration=longest:normalize=0[aout]"@
    } else {
        "[0:a]anull[aout]"@
    }
}

/// The filter graph of the final encode.
pub open spec fn graph_text(p: Project, overlays: Seq<(Seq<char>, int, int)>, mixes: Seq<(Seq<char>, int, int)>) -> Seq<char> {
    let last = if overlays.len() == 0 { "0:v"@ } else { ovr_label((overlays.len() - 1) as nat) };
    overlays_text(p, overlays, overlays.len() as int) + sound_text(p, overlays.len(), mixes) + ";["@
        + last + "]null[vout]"@
}

/// The `-i` arguments of the extra inputs.
pub open spec fn input_args(items: Seq<(Seq<char>, int, int)>) -> Seq<Seq<char>>
    decreases items.len(),
{
    if items.len() == 0 {
        seq![]
    } else {
        input_args(items.drop_last()) + seq!["-i"@, items.last().0]
    }
}

/// Whether `s` begins with `prefix`.
pub open spec fn has_prefix(s: Seq<char>, prefix: Seq<char>) -> bool {
    prefix.len() <= s.len() && s.take(prefix.len() as int) == prefix
}

/// The arguments of the final encode.
pub open spec fn final_args(
    s: ExportSettings,
    concat_path: Seq<char>,
    overlays: Seq<(Seq<char>, int, int)>,
    mixes: Seq<(Seq<char>, int, int)>,
    graph: Seq<char>,
    fps: u32,
) -> Seq<Seq<char>> {
    seq!["-y"@, "-f"@, "concat"@, "-safe"@, "0"@, "-i"@, concat_path] + input_args(overlays)
        + input_args(mixes) + seq![
        "-filter_complex"@,
        graph,
        "-map"@,
        "[vout]"@,
        "-map"@,
        "[aout]"@,
        "-c:v"@,
        s.video_codec@,
    ] + (if has_prefix(s.video_codec@, "libx26"@) {
        seq!["-crf"@, decimal(s.crf as nat), "-preset"@, s.preset@]
    } else {
        seq![]
    }) + seq![
        "-pix_fmt"@,
        "yuv420p"@,
        "-r"@,
        decimal(fps as nat),
        "-c:a"@,
        s.audio_codec@,
        "-b:a"@,
        "192k"@,
        "-movflags"@,
        "+faststart"@,
        s.output_path@,
    ]
}

/// Whether `s` begins with `prefix`.
pub fn starts_with(s: &str, prefix: &str) -> (r: bool)
    ensures
        r == has_prefix(s@, prefix@),
{
    let a = chars_of(s);
    let b = chars_of(prefix);
    if b.len() > a.len() {
        return false;
    }
    let mut i: usize = 0;
    while i < b.len()
        invariant
            a@ == s@,
            b@ == prefix@,
            b.len() <= a.len(),
            i <= b.len(),
            forall|j: int| 0 <= j < i ==> a@[j] == b@[j],
        decreases b.len() - i,
    {
        if a[i] != b[i] {
            assert(s@.take(prefix@.len() as int)[i as int] != prefix@[i as int]);
            return false;
        }
        i = i + 1;
    }
    assert(s@.take(prefix@.len() as int) =~= prefix@);
    true
}


/// Every extra input names a clip of the project within range.
pub open spec fn items_wf(p: Project, items: Seq<(Seq<char>, int, int)>) -> bool {
    forall|i: int|
        0 <= i < items.len() ==> 0 <= (#[trigger] items[i]).1 < p.tracks@.len() && 0 <= items[i].2
            < p.tracks@[items[i].1].clips@.len()
}

/// Appends the extra inputs of the collected clips `clips` of one track.
fn push_track_inputs(
    items: &mut Vec<(String, usize, usize)>,
    p: &Project,
    clips: &Vec<RenderClip>,
    t: usize,
    keys: &Vec<(String, usize)>,
    dir: &str,
    sep: char,
    Ghost(answers): Ghost<Seq<bool>>,
)
    requires
        t < p.tracks@.len(),
        forall|i: int| 0 <= i < clips@.len() ==> (#[trigger] clips@[i]).track == t && clips@[i].clip < p.tracks@[t as int].clips@.len(),
        key_views(keys@) == nut_keys(*p, answers),
        items_wf(*p, item_views(old(items)@)),
    ensures
        item_views(final(items)@) == item_views(old(items)@) + track_inputs(*p, answers, dir@, sep, clips@),
        items_wf(*p, item_views(final(items)@)),
{
    let ghost start = item_views(items@);
    let mut i: usize = 0;
    assert(clips@.take(0) =~= Seq::<RenderClip>::empty());
    assert(start + track_inputs(*p, answers, dir@, sep, clips@.take(0)) =~= start);
    while i < clips.len()
        invariant
            t < p.tracks@.len(),
            forall|i: int| 0 <= i < clips@.len() ==> (#[trigger] clips@[i]).track == t && clips@[i].clip < p.tracks@[t as int].clips@.len(),
            key_views(keys@) == nut_keys(*p, answers),
            i <= clips.len(),
            item_views(items@) == start + track_inputs(*p, answers, dir@, sep, clips@.take(i as int)),
            items_wf(*p, item_views(items@)),
        decreases clips.len() - i,
    {
        let rc = &clips[i];
        assert(clips@.take(i + 1).drop_last() =~= clips@.take(i as int));
        assert(clips@.take(i + 1).last() == *rc);
        let ghost prev = item_views(items@);
        match lookup_nut(keys, p.tracks[t].clips[rc.clip].id.as_str(), dir, sep) {
            Some(f) => {
                items.push((f, rc.track, rc.clip));
                assert(item_views(items@) =~= prev.push(item_view(items@.last())));
            },
            None => {},
        }
        i = i + 1;
    }
    assert(clips@.take(i as int) =~= clips@);
}

/// The extra inputs laid over the main track `main_t`: the clips with an
/// intermediate on the other visible video tracks, track by track.
pub fn overlay_inputs(
    p: &Project,
    c: &CollectedClips,
    keys: &Vec<(String, usize)>,
    main_t: usize,
    dir: &str,
    sep: char,
    Ghost(answers): Ghost<Seq<bool>>,
) -> (r: Vec<(String, usize, usize)>)
    requires
        collected_wf(*p, *c),
        forall|t: int| 0 <= t < p.tracks@.len() ==> #[trigger] c.tracks@[t]@ == collected_track(*p, t, answers),
        key_views(keys@) == nut_keys(*p, answers),
    ensures
        item_views(r@) == overlays_upto(*p, answers, dir@, sep, main_t as int, p.tracks@.len() as int),
        items_wf(*p, item_views(r@)),
{
    let mut items: Vec<(String, usize, usize)> = Vec::new();
    let mut t: usize = 0;
    while t < p.tracks.len()
        invariant
            collected_wf(*p, *c),
            forall|t2: int| 0 <= t2 < p.tracks@.len() ==> #[trigger] c.tracks@[t2]@ == collected_track(*p, t2, answers),
            key_views(keys@) == nut_keys(*p, answers),
            t <= p.tracks.len(),
            item_views(items@) == overlays_upto(*p, answers, dir@, sep, main_t as int, t as int),
            items_wf(*p, item_views(items@)),
        decreases p.tracks.len() - t,
    {
        let track = &p.tracks[t];
        if t != main_t && str_eq(track.track_type.as_str(), "video") && !track.hidden {
            push_track_inputs(&mut items, p, &c.tracks[t], t, keys, dir, sep, Ghost(answers));
        } else {
            assert(overlays_upto(*p, answers, dir@, sep, main_t as int, t + 1) =~= overlays_upto(*p, answers, dir@, sep, main_t as int, t as int));
        }
        t = t + 1;
    }
    items
}

/// The extra inputs mixed into the sound: the clips with an intermediate
/// on the audio tracks that are not muted, track by track.
pub fn mixed_inputs(
    p: &Project,
    c: &CollectedClips,
    keys: &Vec<(String, usize)>,
    dir: &str,
    sep: char,
    Ghost(answers): Ghost<Seq<bool>>,
) -> (r: Vec<(String, usize, usize)>)
    requires
        collected_wf(*p, *c),
        forall|t: int| 0 <= t < p.tracks@.len() ==> #[trigger] c.tracks@[t]@ == collected_track(*p, t, answers),
        key_views(keys@) == nut_keys(*p, answers),
    ensures
        item_views(r@) == mixes_upto(*p, answers, dir@, sep, p.tracks@.len() as int),
        items_wf(*p, item_views(r@)),
{
    let mut items: Vec<(String, usize, usize)> = Vec::new();
    let mut t: usize = 0;
    while t < p.tracks.len()
        invariant
            collected_wf(*p, *c),
            forall|t2: int| 0 <= t2 < p.tracks@.len() ==> #[trigger] c.tracks@[t2]@ == collected_track(*p, t2, answers),
            key_views(keys@) == nut_keys(*p, answers),
            t <= p.tracks.len(),
            item_views(items@) == mixes_upto(*p, answers, dir@, sep, t as int),
            items_wf(*p, item_views(items@)),
        decreases p.tracks.len() - t,
    {
        let track = &p.tracks[t];
        if str_eq(track.track_type.as_str(), "audio") && !track.muted {
            push_track_inputs(&mut items, p, &c.tracks[t], t, keys, dir, sep, Ghost(answers));
        } else {
            assert(mixes_upto(*p, answers, dir@, sep, t + 1) =~= mixes_upto(*p, answers, dir@, sep, t as int));
        }
        t = t + 1;
    }
    items
}


/// Appends the filter that delays the `i`-th overlay stream.
fn push_delay_part(s: &mut String, i: usize, c: &crate::model::Clip)
    ensures
        final(s)@ == old(s)@ + delay_part(i as nat, *c),
{
    let ghost start = s@;
    s.append("[");
    push_decimal_wide(s, i as u128 + 1);
    s.append(":v]setpts=PTS+");
    push_seconds(s, c.timeline_start);
    s.append("/TB[");
    s.append("ov");
    push_decimal(s, i as u64);
    s.append("];");
    assert(s@ =~= start + delay_part(i as nat, *c));
}

/// Appends the label of the picture that the `i`-th overlay goes on.
fn push_under_label(s: &mut String, i: usize)
    ensures
        final(s)@ == old(s)@ + under_label(i as nat),
{
    if i == 0 {
        s.append("0:v");
    } else {
        s.append("ovr");
        push_decimal(s, i as u64 - 1);
    }
    assert(s@ =~= old(s)@ + under_label(i as nat));
}

/// Appends the filter that lays the `i`-th overlay stream over the picture.
fn push_lay_part(s: &mut String, i: usize, c: &crate::model::Clip)
    requires
        clip_in_range(*c),
    ensures
        final(s)@ == old(s)@ + lay_part(i as nat, *c),
{
    let ghost start = s@;
    s.append("[");
    push_under_label(s, i);
    s.append("][");
    s.append("ov");
    push_decimal(s, i as u64);
    s.append("]overlay=x=0:y=0:enable='between(t,");
    push_seconds(s, c.timeline_start);
    s.append(",");
    let span = c.source_end - c.source_start;
    let dur = if span >= MIN_CLIP_US { span } else { MIN_CLIP_US };
    push_seconds(s, c.timeline_start + dur);
    s.append(")':format=auto[");
    s.append("ovr");
    push_decimal(s, i as u64);
    s.append("];");
    assert(s@ =~= start + lay_part(i as nat, *c));
}

/// Appends the filters of the `i`-th overlay.
fn push_overlay_part(s: &mut String, p: &Project, i: usize, item: &(String, usize, usize))
    requires
        tracks_in_range(p.tracks@),
        item.1 < p.tracks@.len(),
        item.2 < p.tracks@[item.1 as int].clips@.len(),
    ensures
        final(s)@ == old(s)@ + overlay_part(*p, i as nat, item_view(*item)),
{
    let ghost start = s@;
    let c = &p.tracks[item.1].clips[item.2];
    assert(clip_in_range(*c));
    push_delay_part(s, i, c);
    push_lay_part(s, i, c);
    assert(s@ =~= start + overlay_part(*p, i as nat, item_view(*item)));
}

/// Appends the filters of the `i`-th mixed input, after `k` overlays.
fn push_mix_part(s: &mut String, p: &Project, k: usize, i: usize, item: &(String, usize, usize))
    requires
        tracks_in_range(p.tracks@),
        item.1 < p.tracks@.len(),
        item.2 < p.tracks@[item.1 as int].clips@.len(),
    ensures
        final(s)@ == old(s)@ + mix_part(*p, k as nat, i as nat, item_view(*item)),
{
    let ghost start = s@;
    let c = &p.tracks[item.1].clips[item.2];
    assert(clip_in_range(*c));
    let ms: u64 = if c.timeline_start <= 0 { 0 } else { ((c.timeline_start + 500) / 1000) as u64 };
    s.append("[");
    push_decimal_wide(s, k as u128 + i as u128 + 1);
    s.append(":a]adelay=");
    push_decimal(s, ms);
    s.append("|");
    push_decimal(s, ms);
    s.append(",asetpts=PTS+");
    push_seconds(s, c.timeline_start);
    s.append("/TB[ao");
    push_decimal(s, i as u64);
    s.append("];");
    assert(s@ =~= start + mix_part(*p, k as nat, i as nat, item_view(*item)));
}

/// The filter graph of the final encode: the overlays over the main track,
/// then the sound, then the picture's output label.
pub fn filter_graph(p: &Project, ov: &Vec<(String, usize, usize)>, mx: &Vec<(String, usize, usize)>) -> (r: String)
    requires
        tracks_in_range(p.tracks@),
        items_wf(*p, item_views(ov@)),
        items_wf(*p, item_views(mx@)),
    ensures
        r@ == graph_text(*p, item_views(ov@), item_views(mx@)),
{
    let ghost ovs = item_views(ov@);
    let ghost mxs = item_views(mx@);
    let mut s = String::new();
    let mut i: usize = 0;
    while i < ov.len()
        invariant
            tracks_in_range(p.tracks@),
            items_wf(*p, ovs),
            ovs == item_views(ov@),
            i <= ov.len(),
            s@ == overlays_text(*p, ovs, i as int),
        decreases ov.len() - i,
    {
        assert(item_view(ov@[i as int]) == ovs[i as int]);
        push_overlay_part(&mut s, p, i, &ov[i]);
        i = i + 1;
    }
    let ghost a = s@;
    let k = ov.len();
    if mx.len() > 0 {
        let mut j: usize = 0;
        while j < mx.len()
            invariant
                tracks_in_range(p.tracks@),
                items_wf(*p, mxs),
                mxs == item_views(mx@),
                k == ov.len(),
                j <= mx.len(),
                s@ == a + mixes_text(*p, k as nat, mxs, j as int),
            decreases mx.len() - j,
        {
            assert(item_view(mx@[j as int]) == mxs[j as int]);
            push_mix_part(&mut s, p, k, j, &mx[j]);
            j = j + 1;
        }
        s.append("[0:a]");
        let mut l: usize = 0;
        let ghost c0 = s@;
        while l < mx.len()
            invariant
                l <= mx.len(),
                s@ == c0 + mix_labels(l as int),
            decreases mx.len() - l,
        {
            s.append("[ao");
            push_decimal(&mut s, l as u64);
            s.append("]");
            l = l + 1;
        }
        s.append("amix=inputs=");
        push_decimal_wide(&mut s, mx.len() as u128 + 1);
        s.append(":duration=longest:normalize=0[aout]");
        assert(s@ =~= a + sound_text(*p, k as nat, mxs));
    } else {
        s.append("[0:a]anull[aout]");
        assert(s@ =~= a + sound_text(*p, k as nat, mxs));
    }
    s.append(";[");
    if k == 0 {
        s.append("0:v");
    } else {
        s.append("ovr");
        push_decimal(&mut s, k as u64 - 1);
    }
    s.append("]null[vout]");
    assert(s@ =~= graph_text(*p, ovs, mxs));
    s
}

/// Appends the `-i` arguments of the extra inputs `items`.
fn push_input_args(args: &mut Vec<String>, items: &Vec<(String, usize, usize)>)
    ensures
        texts(final(args)@) == texts(old(args)@) + input_args(item_views(items@)),
{
    let ghost start = texts(args@);
    let mut i: usize = 0;
    assert(item_views(items@).take(0) =~= Seq::<(Seq<char>, int, int)>::empty());
    assert(start + input_args(item_views(items@).take(0)) =~= start);
    while i < items.len()
        invariant
            i <= items.len(),
            texts(args@) == start + input_args(item_views(items@).take(i as int)),
        decreases items.len() - i,
    {
        push_arg(args, "-i");
        push_arg(args, items[i].0.as_str());
        assert(item_views(items@).take(i + 1).drop_last() =~= item_views(items@).take(i as int));
        assert(item_views(items@).take(i + 1).last() == item_view(items@[i as int]));
        assert(texts(args@) =~= start + input_args(item_views(items@).take(i + 1)));
        i = i + 1;
    }
    assert(item_views(items@).take(i as int) =~= item_views(items@));
}

/// The arguments of the final encode: the concat list, the extra inputs,
/// the filter graph, the codecs (with the quality settings for the x264
/// and x265 encoders), and the output file.
pub fn final_command(
    s: &ExportSettings,
    concat_path: &str,
    ov: &Vec<(String, usize, usize)>,
    mx: &Vec<(String, usize, usize)>,
    graph: &str,
    fps: u32,
) -> (r: Vec<String>)
    ensures
        texts(r@) == final_args(*s, concat_path@, item_views(ov@), item_views(mx@), graph@, fps),
{
    let mut a: Vec<String> = Vec::new();
    push_arg(&mut a, "-y");
    push_arg(&mut a, "-f");
    push_arg(&mut a, "concat");
    push_arg(&mut a, "-safe");
    push_arg(&mut a, "0");
    push_arg(&mut a, "-i");
    push_arg(&mut a, concat_path);
    push_input_args(&mut a, ov);
    push_input_args(&mut a, mx);
    push_arg(&mut a, "-filter_complex");
    push_arg(&mut a, graph);
    push_arg(&mut a, "-map");
    push_arg(&mut a, "[vout]");
    push_arg(&mut a, "-map");
    push_arg(&mut a, "[aout]");
    push_arg(&mut a, "-c:v");
    push_arg(&mut a, s.video_codec.as_str());
    if starts_with(s.video_codec.as_str(), "libx26") {
        push_arg(&mut a, "-crf");
        let mut crf = String::new();
        push_decimal(&mut crf, s.crf as u64);
        push_owned(&mut a, crf);
        push_arg(&mut a, "-preset");
        push_arg(&mut a, s.preset.as_str());
    }
    push_arg(&mut a, "-pix_fmt");
    push_arg(&mut a, "yuv420p");
    push_arg(&mut a, "-r");
    let mut r = String::new();
    push_decimal(&mut r, fps as u64);
    push_owned(&mut a, r);
    push_arg(&mut a, "-c:a");
    push_arg(&mut a, s.audio_codec.as_str());
    push_arg(&mut a, "-b:a");
    push_arg(&mut a, "192k");
    push_arg(&mut a, "-movflags");
    push_arg(&mut a, "+faststart");
    push_arg(&mut a, s.output_path.as_str());
    assert(texts(a@) =~= final_args(*s, concat_path@, item_views(ov@), item_views(mx@), graph@, fps));
    a
}


/// Every extra input of the clips `s` is an intermediate that a job of the
/// render writes.
proof fn lemma_track_inputs_written(p: Project, answers: Seq<bool>, dir: Seq<char>, sep: char, s: Seq<RenderClip>)
    ensures
        forall|i: int| 0 <= i < track_inputs(p, answers, dir, sep, s).len() ==> is_written(p, answers, dir, sep, (#[trigger] track_inputs(p, answers, dir, sep, s)[i]).0),
    decreases s.len(),
{
    if s.len() > 0 {
        lemma_track_inputs_written(p, answers, dir, sep, s.drop_last());
        let id = clip_of(p, s.last()).id@;
        lemma_nut_for_written(p, answers, dir, sep, id);
        let prev = track_inputs(p, answers, dir, sep, s.drop_last());
        let cur = track_inputs(p, answers, dir, sep, s);
        assert forall|i: int| 0 <= i < cur.len() implies is_written(p, answers, dir, sep, (#[trigger] cur[i]).0) by {
            if i < prev.len() {
                assert(cur[i] == prev[i]);
            }
        }
    }
}

/// Every overlay input of the first `n` tracks is an intermediate that a
/// job of the render writes.
proof fn lemma_overlays_written(p: Project, answers: Seq<bool>, dir: Seq<char>, sep: char, main_t: int, n: int)
    ensures
        forall|i: int| 0 <= i < overlays_upto(p, answers, dir, sep, main_t, n).len() ==> is_written(p, answers, dir, sep, (#[trigger] overlays_upto(p, answers, dir, sep, main_t, n)[i]).0),
    decreases n,
{
    if n > 0 {
        lemma_overlays_written(p, answers, dir, sep, main_t, n - 1);
        lemma_track_inputs_written(p, answers, dir, sep, collected_track(p, n - 1, answers));
        let prev = overlays_upto(p, answers, dir, sep, main_t, n - 1);
        let cur = overlays_upto(p, answers, dir, sep, main_t, n);
        let more = if is_overlay_track(p, n - 1, main_t) {
            track_inputs(p, answers, dir, sep, collected_track(p, n - 1, answers))
        } else {
            seq![]
        };
        assert(cur == prev + more);
        assert forall|i: int| 0 <= i < cur.len() implies is_written(p, answers, dir, sep, (#[trigger] cur[i]).0) by {
            if i < prev.len() {
                assert(cur[i] == prev[i]);
            } else {
                assert(cur[i] == more[i - prev.len()]);
            }
        }
    }
}

/// Every audio input of the first `n` tracks is an intermediate that a job
/// of the render writes.
proof fn lemma_mixes_written(p: Project, answers: Seq<bool>, dir: Seq<char>, sep: char, n: int)
    ensures
        forall|i: int| 0 <= i < mixes_upto(p, answers, dir, sep, n).len() ==> is_written(p, answers, dir, sep, (#[trigger] mixes_upto(p, answers, dir, sep, n)[i]).0),
    decreases n,
{
    if n > 0 {
        lemma_mixes_written(p, answers, dir, sep, n - 1);
        lemma_track_inputs_written(p, answers, dir, sep, collected_track(p, n - 1, answers));
        let prev = mixes_upto(p, answers, dir, sep, n - 1);
        let cur = mixes_upto(p, answers, dir, sep, n);
        let more = if is_mixed_track(p, n - 1) {
            track_inputs(p, answers, dir, sep, collected_track(p, n - 1, answers))
        } else {
            seq![]
        };
        assert(cur == prev + more);
        assert forall|i: int| 0 <= i < cur.len() implies is_written(p, answers, dir, sep, (#[trigger] cur[i]).0) by {
            if i < prev.len() {
                assert(cur[i] == prev[i]);
            } else {
                assert(cur[i] == more[i - prev.len()]);
            }
        }
    }
}

/// Every extra input of a render's final encode is an intermediate that a
/// job of the render writes.
pub proof fn lemma_extra_inputs_written(p: Project, answers: Seq<bool>, dir: Seq<char>, sep: char, main_t: int)
    ensures
        forall|i: int| 0 <= i < overlays_upto(p, answers, dir, sep, main_t, p.tracks@.len() as int).len() ==> is_written(p, answers, dir, sep, (#[trigger] overlays_upto(p, answers, dir, sep, main_t, p.tracks@.len() as int)[i]).0),
        forall|i: int| 0 <= i < mixes_upto(p, answers, dir, sep, p.tracks@.len() as int).len() ==> is_written(p, answers, dir, sep, (#[trigger] mixes_upto(p, answers, dir, sep, p.tracks@.len() as int)[i]).0),
{
    lemma_overlays_written(p, answers, dir, sep, main_t, p.tracks@.len() as int);
    lemma_mixes_written(p, answers, dir, sep, p.tracks@.len() as int);
}

/// The extra inputs drawn from the clips `s` of track `t` are clips of
/// track `t`.
proof fn lemma_track_inputs_track(p: Project, answers: Seq<bool>, dir: Seq<char>, sep: char, s: Seq<RenderClip>, t: int)
    requires
        forall|i: int| 0 <= i < s.len() ==> (#[trigger] s[i]).track == t,
    ensures
        forall|i: int| 0 <= i < track_inputs(p, answers, dir, sep, s).len() ==> (#[trigger] track_inputs(p, answers, dir, sep, s)[i]).1 == t,
    decreases s.len(),
{
    if s.len() > 0 {
        let d = s.drop_last();
        assert forall|i: int| 0 <= i < d.len() implies (#[trigger] d[i]).track == t by {
            assert(d[i] == s[i]);
        }
        lemma_track_inputs_track(p, answers, dir, sep, d, t);
        assert(s[s.len() - 1].track == t);
        let prev = track_inputs(p, answers, dir, sep, d);
        let cur = track_inputs(p, answers, dir, sep, s);
        assert forall|i: int| 0 <= i < cur.len() implies (#[trigger] cur[i]).1 == t by {
            if i < prev.len() {
                assert(cur[i] == prev[i]);
            }
        }
    }
}

/// Only other visible video tracks are laid over the picture, and only
/// unmuted audio tracks are mixed into the sound: every overlay input of
/// the first `n` tracks is a clip of a video track that is not hidden and
/// is not the main track `main_t`, and every mixed input a clip of an
/// audio track that is not muted.
pub proof fn lemma_overlay_and_mix_tracks(p: Project, answers: Seq<bool>, dir: Seq<char>, sep: char, main_t: int, n: int)
    requires
        project_wf(&p),
        0 <= n <= p.tracks@.len(),
    ensures
        forall|i: int| 0 <= i < overlays_upto(p, answers, dir, sep, main_t, n).len() ==> {
            let t = (#[trigger] overlays_upto(p, answers, dir, sep, main_t, n)[i]).1;
            &&& 0 <= t < n
            &&& t != main_t
            &&& p.tracks@[t].track_type@ == "video"@
            &&& !p.tracks@[t].hidden
        },
        forall|i: int| 0 <= i < mixes_upto(p, answers, dir, sep, n).len() ==> {
            let t = (#[trigger] mixes_upto(p, answers, dir, sep, n)[i]).1;
            &&& 0 <= t < n
            &&& p.tracks@[t].track_type@ == "audio"@
            &&& !p.tracks@[t].muted
        },
    decreases n,
{
    if n > 0 {
        lemma_overlay_and_mix_tracks(p, answers, dir, sep, main_t, n - 1);
        crate::collect::lemma_collected_track(p, n - 1, answers);
        let c = collected_track(p, n - 1, answers);
        lemma_track_inputs_track(p, answers, dir, sep, c, n - 1);
        let ti = track_inputs(p, answers, dir, sep, c);
        let po = overlays_upto(p, answers, dir, sep, main_t, n - 1);
        let o = overlays_upto(p, answers, dir, sep, main_t, n);
        assert forall|i: int| 0 <= i < o.len() implies {
            let t = (#[trigger] o[i]).1;
            &&& 0 <= t < n
            &&& t != main_t
            &&& p.tracks@[t].track_type@ == "video"@
            &&& !p.tracks@[t].hidden
        } by {
            if i < po.len() {
                assert(o[i] == po[i]);
            } else {
                assert(o[i] == ti[i - po.len()]);
            }
        }
        let pm = mixes_upto(p, answers, dir, sep, n - 1);
        let m = mixes_upto(p, answers, dir, sep, n);
        assert forall|i: int| 0 <= i < m.len() implies {
            let t = (#[trigger] m[i]).1;
            &&& 0 <= t < n
            &&& p.tracks@[t].track_type@ == "audio"@
            &&& !p.tracks@[t].muted
        } by {
            if i < pm.len() {
                assert(m[i] == pm[i]);
            } else {
                assert(m[i] == ti[i - pm.len()]);
            }
        }
    }
}

} // verus!
