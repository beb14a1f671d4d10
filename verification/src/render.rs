//! The whole render of a project, as a plan of FFmpeg runs: each clip
//! normalised into an intermediate stream, black filler for the holes of
//! the main track, a concat list, and the final encode that lays the other
//! video tracks over the main one and mixes in the audio tracks.

use vstd::prelude::*;
use crate::args::texts;
use crate::clipcmd::{project_duration, tracks_max_end};
use crate::collect::{collect_clips, collected_track, probe_paths, lemma_collected_track};
use crate::gaps::{GapJob, concat_list, concat_text, gap_views, gap_wf, layout_main_track, main_clips, trailing_args, trailing_gap_file, walk};
use crate::graph::{filter_graph, final_args, final_command, graph_text, has_prefix, input_args, item_views, mixed_inputs, mixes_upto, overlay_inputs, overlays_upto};
use crate::numfmt::decimal;
use crate::model::{ExportSettings, Project, project_wf};
use crate::plan::{include_audio, is_written, PreprocessJob, intermediate_keys, job_keys, is_job, main_track, main_track_of, out_fps, out_height, out_width, output_format, preprocess_jobs, selected, work_file, collected_wf, nut_keys};

verus! {

/// The FFmpeg runs of a render, in the order they are made.
pub struct RenderPlan {
    pub out_width: u32,
    pub out_height: u32,
    pub out_fps: u32,
    /// Normalise every selected clip; a failure stops the render.
    pub preprocess: Vec<PreprocessJob>,
    /// Generate the filler of the main track's holes; a failure stops the
    /// render.
    pub gaps: Vec<GapJob>,
    /// Generate the filler that closes the timeline; a failure is ignored.
    pub trailing_gap: Option<GapJob>,
    /// Where the concat list is written, and what it holds.
    pub concat_path: String,
    pub concat_list: String,
    /// The filter graph of the final encode (also in `final_args`).
    pub filter_graph: String,
    /// The arguments of the final encode.
    pub final_args: Vec<String>,
}

/// Why a render does not start.
pub open spec fn render_refusal(p: Project, s: ExportSettings) -> Option<Seq<char>> {
    if tracks_max_end(p.tracks@) <= 0 {
        Some("Timeline is empty"@)
    } else if s.output_path@.len() == 0 {
        Some("No output path"@)
    } else {
        None
    }
}

/// The main track's index, or the first track when there is none.
pub open spec fn main_index(p: Project) -> int {
    match main_track_of(p) {
        Some(t) => t,
        None => 0,
    }
}

/// The filter graph of a render.
pub open spec fn render_graph(p: Project, answers: Seq<bool>, dir: Seq<char>, sep: char) -> Seq<char> {
    let n = p.tracks@.len() as int;
    graph_text(
        p,
        overlays_upto(p, answers, dir, sep, main_index(p), n),
        mixes_upto(p, answers, dir, sep, n),
    )
}

/// Whether `plan` is the render of `p` with settings `s`, intermediates in
/// the work directory `dir` (path separator `sep`), when `answers` tell
/// which probed files have sound.
pub open spec fn is_render_plan(
    plan: RenderPlan,
    p: Project,
    s: ExportSettings,
    answers: Seq<bool>,
    dir: Seq<char>,
    sep: char,
) -> bool {
    let w = out_width(p, s);
    let h = out_height(p, s);
    let f = out_fps(p, s);
    let total = tracks_max_end(p.tracks@);
    let m = main_clips(p, answers, main_track_of(p));
    let (cursor, gaps, entries) = walk(p, answers, m, m.len() as int, w, h, f, dir, sep);
    let trailing = trailing_args(cursor, total, w, h, f, dir, sep);
    let all_entries = match trailing {
        Some(_) => entries.push(trailing_gap_file(dir, sep)),
        None => entries,
    };
    let n = p.tracks@.len() as int;
    let concat_path = work_file(dir, sep, "concat.txt"@);
    &&& plan.out_width == w && plan.out_height == h && plan.out_fps == f
    &&& plan.preprocess@.len() == selected(p, answers).len()
    &&& forall|k: int|
        0 <= k < plan.preprocess@.len() ==> is_job(
            #[trigger] plan.preprocess@[k],
            p,
            s,
            selected(p, answers)[k],
            k as nat,
            dir,
            sep,
        )
    &&& gap_views(plan.gaps@) == gaps
    &&& forall|k: int| 0 <= k < plan.gaps@.len() ==> gap_wf(#[trigger] plan.gaps@[k])
    &&& match trailing {
        Some(a) => plan.trailing_gap matches Some(g) && texts(g.args@) == a && gap_wf(g),
        None => plan.trailing_gap is None,
    }
    &&& plan.concat_path@ == concat_path
    &&& plan.concat_list@ == concat_text(all_entries)
    &&& plan.filter_graph@ == render_graph(p, answers, dir, sep)
    &&& texts(plan.final_args@) == final_args(
        s,
        concat_path,
        overlays_upto(p, answers, dir, sep, main_index(p), n),
        mixes_upto(p, answers, dir, sep, n),
        render_graph(p, answers, dir, sep),
        f,
    )
}

/// Checks that a render can start: the timeline has length and an output
/// file is named. Returns the length of the timeline.
pub fn check_render_request(p: &Project, s: &ExportSettings) -> (r: Result<i64, String>)
    requires
        project_wf(p),
    ensures
        match render_refusal(*p, *s) {
            Some(msg) => r matches Err(e) && e@ == msg,
            None => r matches Ok(total) && total == tracks_max_end(p.tracks@),
        },
{
    let total = project_duration(p);
    if total <= 0 {
        return Err(String::from_str("Timeline is empty"));
    }
    if s.output_path.as_str().is_empty() {
        return Err(String::from_str("No output path"));
    }
    Ok(total)
}

/// Plans the render of `p` with settings `s`. `probes` are the answers,
/// in order, to whether each file of `audio_probe_paths(p)` has an audio
/// stream; intermediates go into the work directory `dir`, whose path
/// separator is `sep`. Refuses an empty timeline, a missing output path,
/// and a timeline of which no clip gets an intermediate.
pub fn plan_render(p: &Project, s: &ExportSettings, probes: &Vec<bool>, dir: &str, sep: char) -> (r: Result<RenderPlan, String>)
    requires
        project_wf(p),
        probes@.len() == probe_paths(*p).len(),
    ensures
        match render_refusal(*p, *s) {
            Some(msg) => r matches Err(e) && e@ == msg,
            None => if selected(*p, probes@).len() == 0 {
                r matches Err(e) && e@ == "No clips to render"@
            } else {
                r matches Ok(plan) && is_render_plan(plan, *p, *s, probes@, dir@, sep)
            },
        },
{
    let total = match check_render_request(p, s) {
        Ok(total) => total,
        Err(e) => {
            return Err(e);
        },
    };
    let ghost answers = probes@;
    let collected = collect_clips(p, probes);
    proof {
        assert forall|t: int, i: int|
            0 <= t < collected.tracks@.len() && 0 <= i < collected.tracks@[t]@.len() implies (#[trigger] collected.tracks@[t]@[i]).track
                == t && collected.tracks@[t]@[i].clip < p.tracks@[t].clips@.len() by {
            lemma_collected_track(*p, t, answers);
        }
        assert(collected_wf(*p, collected));
    }
    let (w, h, f) = output_format(p, s);
    let jobs = preprocess_jobs(p, s, &collected, dir, sep, Ghost(answers));
    if jobs.len() == 0 {
        return Err(String::from_str("No clips to render"));
    }
    let keys = intermediate_keys(&jobs);
    assert(jobs@.len() == selected(*p, answers).len());
    assert(job_keys(jobs@) =~= nut_keys(*p, answers));
    let main = main_track(p);
    let layout = layout_main_track(p, &collected, &keys, main, total, w, h, f, dir, sep, Ghost(answers));
    let mut concat_path = crate::plan::dir_prefix_text(dir, sep);
    concat_path.append("concat.txt");
    assert(concat_path@ =~= work_file(dir@, sep, "concat.txt"@));
    let list = concat_list(&layout.entries);
    let main_t = match main {
        Some(t) => t,
        None => 0,
    };
    let ov = overlay_inputs(p, &collected, &keys, main_t, dir, sep, Ghost(answers));
    let mx = mixed_inputs(p, &collected, &keys, dir, sep, Ghost(answers));
    let graph = filter_graph(p, &ov, &mx);
    let args = final_command(s, concat_path.as_str(), &ov, &mx, graph.as_str(), f);
    Ok(RenderPlan {
        out_width: w,
        out_height: h,
        out_fps: f,
        preprocess: jobs,
        gaps: layout.gaps,
        trailing_gap: layout.trailing_gap,
        concat_path,
        concat_list: list,
        filter_graph: graph,
        final_args: args,
    })
}


/// Every clip of a render is normalised into a file of its own: no two
/// jobs write the same intermediate.
pub proof fn lemma_intermediates_distinct(
    plan: RenderPlan,
    p: Project,
    s: ExportSettings,
    answers: Seq<bool>,
    dir: Seq<char>,
    sep: char,
    i: int,
    j: int,
)
    requires
        is_render_plan(plan, p, s, answers, dir, sep),
        0 <= i < j < plan.preprocess@.len(),
    ensures
        plan.preprocess@[i].output@ != plan.preprocess@[j].output@,
{
    assert(is_job(plan.preprocess@[i], p, s, selected(p, answers)[i], i as nat, dir, sep));
    assert(is_job(plan.preprocess@[j], p, s, selected(p, answers)[j], j as nat, dir, sep));
    crate::plan::lemma_nut_path_distinct(dir, sep, i as nat, j as nat);
}


/// Every extra input that the final encode of a render reads is the
/// intermediate of one of the render's normalising jobs.
pub proof fn lemma_encode_reads_written_files(
    plan: RenderPlan,
    p: Project,
    s: ExportSettings,
    answers: Seq<bool>,
    dir: Seq<char>,
    sep: char,
)
    requires
        is_render_plan(plan, p, s, answers, dir, sep),
    ensures
        forall|i: int|
            0 <= i < overlays_upto(p, answers, dir, sep, main_index(p), p.tracks@.len() as int).len()
                ==> exists|k: int|
                0 <= k < plan.preprocess@.len() && #[trigger] plan.preprocess@[k].output@ == (#[trigger] overlays_upto(
                    p,
                    answers,
                    dir,
                    sep,
                    main_index(p),
                    p.tracks@.len() as int,
                )[i]).0,
        forall|i: int|
            0 <= i < mixes_upto(p, answers, dir, sep, p.tracks@.len() as int).len() ==> exists|k: int|
                0 <= k < plan.preprocess@.len() && #[trigger] plan.preprocess@[k].output@ == (#[trigger] mixes_upto(
                    p,
                    answers,
                    dir,
                    sep,
                    p.tracks@.len() as int,
                )[i]).0,
{
    let n = p.tracks@.len() as int;
    crate::graph::lemma_extra_inputs_written(p, answers, dir, sep, main_index(p));
    let ov = overlays_upto(p, answers, dir, sep, main_index(p), n);
    let mx = mixes_upto(p, answers, dir, sep, n);
    assert forall|i: int| 0 <= i < ov.len() implies exists|k: int|
        0 <= k < plan.preprocess@.len() && #[trigger] plan.preprocess@[k].output@ == (#[trigger] ov[i]).0 by {
        assert(is_written(p, answers, dir, sep, ov[i].0));
        let g = choose|g: int| 0 <= g < selected(p, answers).len() && ov[i].0 == #[trigger] crate::plan::nut_path(dir, sep, g as nat);
        assert(is_job(plan.preprocess@[g], p, s, selected(p, answers)[g], g as nat, dir, sep));
    }
    assert forall|i: int| 0 <= i < mx.len() implies exists|k: int|
        0 <= k < plan.preprocess@.len() && #[trigger] plan.preprocess@[k].output@ == (#[trigger] mx[i]).0 by {
        assert(is_written(p, answers, dir, sep, mx[i].0));
        let g = choose|g: int| 0 <= g < selected(p, answers).len() && mx[i].0 == #[trigger] crate::plan::nut_path(dir, sep, g as nat);
        assert(is_job(plan.preprocess@[g], p, s, selected(p, answers)[g], g as nat, dir, sep));
    }
}

/// A clip on a muted video track is normalised without sound: its job
/// ends in `-an` and the intermediate, with no audio filter or codec
/// (seventeen arguments for an image, eighteen otherwise).
pub proof fn lemma_muted_video_is_silent(
    plan: RenderPlan,
    p: Project,
    s: ExportSettings,
    answers: Seq<bool>,
    dir: Seq<char>,
    sep: char,
    k: int,
)
    requires
        is_render_plan(plan, p, s, answers, dir, sep),
        0 <= k < plan.preprocess@.len(),
        p.tracks@[selected(p, answers)[k].track as int].track_type@ == "video"@,
        p.tracks@[selected(p, answers)[k].track as int].muted,
    ensures
        ({
            let a = texts(plan.preprocess@[k].args@);
            &&& a.len() == if selected(p, answers)[k].is_image { 17int } else { 18int }
            &&& a[a.len() - 2] == "-an"@
            &&& a[a.len() - 1] == plan.preprocess@[k].output@
        }),
{
    reveal_strlit("video");
    reveal_strlit("audio");
    let rc = selected(p, answers)[k];
    let job = plan.preprocess@[k];
    assert(is_job(job, p, s, rc, k as nat, dir, sep));
    let t = p.tracks@[rc.track as int];
    assert(t.track_type@ != "audio"@) by {
        assert(t.track_type@[0] == 'v');
        assert("audio"@[0] == 'a');
    }
    assert(!include_audio(t));
}

/// An H.264 or H.265 encode (a codec whose name begins with `libx26`)
/// keeps the chosen quality and preset: the final arguments hold `-crf`
/// and the CRF setting, then `-preset` and the preset.
pub proof fn lemma_x26x_keeps_quality(
    plan: RenderPlan,
    p: Project,
    s: ExportSettings,
    answers: Seq<bool>,
    dir: Seq<char>,
    sep: char,
)
    requires
        is_render_plan(plan, p, s, answers, dir, sep),
        s.video_codec@.len() >= 6,
        s.video_codec@.take(6) == "libx26"@,
    ensures
        exists|j: int|
            0 <= j && j + 3 < texts(plan.final_args@).len() && #[trigger] texts(plan.final_args@)[j] == "-crf"@
                && texts(plan.final_args@)[j + 1] == decimal(s.crf as nat) && texts(plan.final_args@)[j + 2]
                == "-preset"@ && texts(plan.final_args@)[j + 3] == s.preset@,
{
    reveal_strlit("libx26");
    let n = p.tracks@.len() as int;
    let ov = overlays_upto(p, answers, dir, sep, main_index(p), n);
    let mx = mixes_upto(p, answers, dir, sep, n);
    let cp = work_file(dir, sep, "concat.txt"@);
    let g = render_graph(p, answers, dir, sep);
    let f = out_fps(p, s);
    let a = texts(plan.final_args@);
    assert(a == final_args(s, cp, ov, mx, g, f));
    assert(has_prefix(s.video_codec@, "libx26"@));
    let pre = seq!["-y"@, "-f"@, "concat"@, "-safe"@, "0"@, "-i"@, cp] + input_args(ov) + input_args(mx) + seq![
        "-filter_complex"@,
        g,
        "-map"@,
        "[vout]"@,
        "-map"@,
        "[aout]"@,
        "-c:v"@,
        s.video_codec@,
    ];
    let q = seq!["-crf"@, decimal(s.crf as nat), "-preset"@, s.preset@];
    let post = seq![
        "-pix_fmt"@,
        "yuv420p"@,
        "-r"@,
        decimal(f as nat),
        "-c:a"@,
        s.audio_codec@,
        "-b:a"@,
        "192k"@,
        "-movflags"@,
        "+faststart"@,
        s.output_path@,
    ];
    assert(a =~= pre + q + post);
    let j = pre.len() as int;
    assert(a[j] == q[0]);
    assert(a[j + 1] == q[1]);
    assert(a[j + 2] == q[2]);
    assert(a[j + 3] == q[3]);
}

/// A clip with sound on an audio track or on an unmuted video track is
/// normalised with its sound: its job ends in `-af`, the audio filter,
/// `-c:a pcm_s16le` and the intermediate.
pub proof fn lemma_heard_clips_keep_sound(
    plan: RenderPlan,
    p: Project,
    s: ExportSettings,
    answers: Seq<bool>,
    dir: Seq<char>,
    sep: char,
    k: int,
)
    requires
        is_render_plan(plan, p, s, answers, dir, sep),
        0 <= k < plan.preprocess@.len(),
        selected(p, answers)[k].has_audio,
        p.tracks@[selected(p, answers)[k].track as int].track_type@ == "audio"@ || (
        p.tracks@[selected(p, answers)[k].track as int].track_type@ == "video"@
            && !p.tracks@[selected(p, answers)[k].track as int].muted),
    ensures
        ({
            let a = texts(plan.preprocess@[k].args@);
            &&& a.len() == if selected(p, answers)[k].is_image { 20int } else { 21int }
            &&& a[a.len() - 5] == "-af"@
            &&& a[a.len() - 3] == "-c:a"@
            &&& a[a.len() - 2] == "pcm_s16le"@
            &&& a[a.len() - 1] == plan.preprocess@[k].output@
        }),
{
    let rc = selected(p, answers)[k];
    let job = plan.preprocess@[k];
    assert(is_job(job, p, s, rc, k as nat, dir, sep));
    assert(include_audio(p.tracks@[rc.track as int]));
}

/// Any other codec gets no quality or preset arguments: right after
/// `-c:v` and the codec comes `-pix_fmt`.
pub proof fn lemma_other_codecs_plain(
    plan: RenderPlan,
    p: Project,
    s: ExportSettings,
    answers: Seq<bool>,
    dir: Seq<char>,
    sep: char,
)
    requires
        is_render_plan(plan, p, s, answers, dir, sep),
        !(s.video_codec@.len() >= 6 && s.video_codec@.take(6) == "libx26"@),
    ensures
        exists|j: int|
            0 <= j && j + 2 < texts(plan.final_args@).len() && #[trigger] texts(plan.final_args@)[j] == "-c:v"@
                && texts(plan.final_args@)[j + 1] == s.video_codec@ && texts(plan.final_args@)[j + 2]
                == "-pix_fmt"@,
{
    reveal_strlit("libx26");
    let n = p.tracks@.len() as int;
    let ov = overlays_upto(p, answers, dir, sep, main_index(p), n);
    let mx = mixes_upto(p, answers, dir, sep, n);
    let cp = work_file(dir, sep, "concat.txt"@);
    let g = render_graph(p, answers, dir, sep);
    let f = out_fps(p, s);
    let a = texts(plan.final_args@);
    assert(a == final_args(s, cp, ov, mx, g, f));
    assert(!has_prefix(s.video_codec@, "libx26"@));
    let pre = seq!["-y"@, "-f"@, "concat"@, "-safe"@, "0"@, "-i"@, cp] + input_args(ov) + input_args(mx) + seq![
        "-filter_complex"@,
        g,
        "-map"@,
        "[vout]"@,
        "-map"@,
        "[aout]"@,
    ];
    let q = seq!["-c:v"@, s.video_codec@];
    let post = seq![
        "-pix_fmt"@,
        "yuv420p"@,
        "-r"@,
        decimal(f as nat),
        "-c:a"@,
        s.audio_codec@,
        "-b:a"@,
        "192k"@,
        "-movflags"@,
        "+faststart"@,
        s.output_path@,
    ];
    assert(a =~= pre + q + post);
    let j = pre.len() as int;
    assert(a[j] == q[0]);
    assert(a[j + 1] == q[1]);
    assert(a[j + 2] == post[0]);
}

} // verus!
