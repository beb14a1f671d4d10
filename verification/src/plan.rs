//! The first phase of a render: which clips are turned into intermediate
//! streams, under which file names, and which intermediate stands for
//! which clip.

use vstd::prelude::*;
use crate::args::texts;
use crate::clipcmd::{preprocess_args, build_preprocess_args};
use crate::collect::{RenderClip, CollectedClips, collected_track};
use crate::model::{Clip, Project, Track, ExportSettings, project_wf, tracks_in_range, clip_in_range};
use crate::numfmt::{zero_padded, push_zero_padded};
use crate::text::str_eq;

verus! {

/// One clip to normalise into an intermediate stream.
pub struct PreprocessJob {
    pub clip_id: String,
    /// FFmpeg arguments; the last one is the intermediate file, the run's
    /// only output.
    pub args: Vec<String>,
    /// The intermediate file written.
    pub output: String,
}

/// The frame width of the output: the export setting, else the project's.
pub open spec fn out_width(p: Project, s: ExportSettings) -> u32 {
    match s.width {
        Some(w) => w,
        None => p.width,
    }
}

/// The frame height of the output: the export setting, else the project's.
pub open spec fn out_height(p: Project, s: ExportSettings) -> u32 {
    match s.height {
        Some(h) => h,
        None => p.height,
    }
}

/// The frame rate of the output: the export setting, else the project's,
/// and at least one.
pub open spec fn out_fps(p: Project, s: ExportSettings) -> u32 {
    let f = match s.fps {
        Some(f) => f,
        None => p.fps,
    };
    if f >= 1 { f } else { 1 }
}

/// The directory `dir` ready to have a file name appended: with a
/// separator at its end, unless it is empty or already ends with one.
pub open spec fn dir_prefix(dir: Seq<char>, sep: char) -> Seq<char> {
    if dir.len() == 0 || dir.last() == '/' || dir.last() == sep {
        dir
    } else {
        dir.push(sep)
    }
}

/// The file `name` in the directory `dir`, whose separator is `sep`.
pub open spec fn work_file(dir: Seq<char>, sep: char, name: Seq<char>) -> Seq<char> {
    dir_prefix(dir, sep) + name
}

/// The directory `dir` ready to have a file name appended.
pub fn dir_prefix_text(dir: &str, sep: char) -> (r: String)
    ensures
        r@ == dir_prefix(dir@, sep),
{
    let v = crate::text::chars_of(dir);
    let mut s = String::from_str(dir);
    if v.len() > 0 {
        let last = v[v.len() - 1];
        if last != '/' && last != sep {
            crate::text::push_char(&mut s, sep);
        }
    }
    s
}

/// The intermediate file of the `n`-th normalised clip:
/// `clip_NNNN.nut`, the counter zero-padded to four digits.
pub open spec fn nut_path(dir: Seq<char>, sep: char, n: nat) -> Seq<char> {
    work_file(dir, sep, "clip_"@ + zero_padded(n, 4) + ".nut"@)
}

/// The clip a render clip stands for.
pub open spec fn clip_of(p: Project, rc: RenderClip) -> Clip {
    p.tracks@[rc.track as int].clips@[rc.clip as int]
}

/// Whether a track's audio goes into its clips' intermediates: an audio
/// track, or a video track that is not muted.
pub open spec fn include_audio(t: Track) -> bool {
    t.track_type@ == "audio"@ || (t.track_type@ == "video"@ && !t.muted)
}

/// Whether a clip gets no intermediate: a silent clip on a hidden video
/// track, or any clip on a muted audio track.
pub open spec fn skipped(t: Track, rc: RenderClip) -> bool {
    (t.track_type@ == "video"@ && t.hidden && !rc.has_audio) || (t.track_type@ == "audio"@
        && t.muted)
}

/// The clips of `s` that are not skipped on track `t`.
pub open spec fn kept(t: Track, s: Seq<RenderClip>) -> Seq<RenderClip>
    decreases s.len(),
{
    if s.len() == 0 {
        seq![]
    } else {
        kept(t, s.drop_last()) + (if skipped(t, s.last()) {
            seq![]
        } else {
            seq![s.last()]
        })
    }
}

/// The clips of the first `n` tracks that get an intermediate, in order.
pub open spec fn selected_upto(p: Project, answers: Seq<bool>, n: int) -> Seq<RenderClip>
    decreases n,
{
    if n <= 0 {
        seq![]
    } else {
        selected_upto(p, answers, n - 1) + kept(p.tracks@[n - 1], collected_track(p, n - 1, answers))
    }
}

/// The clips that get an intermediate, track by track in timeline order.
pub open spec fn selected(p: Project, answers: Seq<bool>) -> Seq<RenderClip> {
    selected_upto(p, answers, p.tracks@.len() as int)
}

/// Whether `job` is the `n`-th normalising job, for render clip `rc`.
pub open spec fn is_job(
    job: PreprocessJob,
    p: Project,
    s: ExportSettings,
    rc: RenderClip,
    n: nat,
    dir: Seq<char>,
    sep: char,
) -> bool {
    let c = clip_of(p, rc);
    &&& job.clip_id@ == c.id@
    &&& job.output@ == nut_path(dir, sep, n)
    &&& texts(job.args@) == preprocess_args(
        c,
        rc.asset_path@,
        rc.is_image,
        out_width(p, s),
        out_height(p, s),
        out_fps(p, s),
        include_audio(p.tracks@[rc.track as int]) && rc.has_audio,
        nut_path(dir, sep, n),
    )
}

/// The collected clips belong to the project: one list per track, each
/// render clip naming a clip of its own track.
pub open spec fn collected_wf(p: Project, c: CollectedClips) -> bool {
    &&& c.tracks@.len() == p.tracks@.len()
    &&& forall|t: int, i: int|
        0 <= t < c.tracks@.len() && 0 <= i < c.tracks@[t]@.len() ==> (#[trigger] c.tracks@[t]@[i]).track
            == t && c.tracks@[t]@[i].clip < p.tracks@[t].clips@.len()
}

/// The intermediate file of the `n`-th normalised clip.
pub fn nut_file(dir: &str, sep: char, n: usize) -> (r: String)
    ensures
        r@ == nut_path(dir@, sep, n as nat),
{
    let mut s = dir_prefix_text(dir, sep);
    s.append("clip_");
    push_zero_padded(&mut s, n as u64, 4);
    s.append(".nut");
    assert(s@ =~= nut_path(dir@, sep, n as nat));
    s
}

/// The frame size and rate of the output.
pub fn output_format(p: &Project, s: &ExportSettings) -> (r: (u32, u32, u32))
    ensures
        r == (out_width(*p, *s), out_height(*p, *s), out_fps(*p, *s)),
{
    let w = match s.width {
        Some(w) => w,
        None => p.width,
    };
    let h = match s.height {
        Some(h) => h,
        None => p.height,
    };
    let f = match s.fps {
        Some(f) => f,
        None => p.fps,
    };
    (w, h, if f >= 1 { f } else { 1 })
}

/// The normalising jobs of a render, one per selected clip, numbered in
/// order.
pub fn preprocess_jobs(
    p: &Project,
    s: &ExportSettings,
    c: &CollectedClips,
    dir: &str,
    sep: char,
    Ghost(answers): Ghost<Seq<bool>>,
) -> (r: Vec<PreprocessJob>)
    requires
        tracks_in_range(p.tracks@),
        collected_wf(*p, *c),
        forall|t: int| 0 <= t < p.tracks@.len() ==> #[trigger] c.tracks@[t]@ == collected_track(*p, t, answers),
    ensures
        r@.len() == selected(*p, answers).len(),
        forall|n: int|
            0 <= n < r@.len() ==> is_job(#[trigger] r@[n], *p, *s, selected(*p, answers)[n], n as nat, dir@, sep),
{
    let (w, h, f) = output_format(p, s);
    let mut jobs: Vec<PreprocessJob> = Vec::new();
    let mut t: usize = 0;
    while t < p.tracks.len()
        invariant
            tracks_in_range(p.tracks@),
            collected_wf(*p, *c),
            forall|t2: int| 0 <= t2 < p.tracks@.len() ==> #[trigger] c.tracks@[t2]@ == collected_track(*p, t2, answers),
            (w, h, f) == (out_width(*p, *s), out_height(*p, *s), out_fps(*p, *s)),
            t <= p.tracks.len(),
            jobs@.len() == selected_upto(*p, answers, t as int).len(),
            forall|n: int|
                0 <= n < jobs@.len() ==> is_job(#[trigger] jobs@[n], *p, *s, selected_upto(*p, answers, t as int)[n], n as nat, dir@, sep),
        decreases p.tracks.len() - t,
    {
        let track = &p.tracks[t];
        let clips = &c.tracks[t];
        let is_audio = str_eq(track.track_type.as_str(), "audio");
        let is_video = str_eq(track.track_type.as_str(), "video");
        let with_audio = is_audio || (is_video && !track.muted);
        let skip_video = is_video && track.hidden;
        let ghost base = selected_upto(*p, answers, t as int);
        let ghost n0 = jobs@.len();
        let mut i: usize = 0;
        assert(clips@.take(0) =~= Seq::<RenderClip>::empty());
        assert(base + kept(*track, clips@.take(0)) =~= base);
        while i < clips.len()
            invariant
                tracks_in_range(p.tracks@),
                collected_wf(*p, *c),
                (w, h, f) == (out_width(*p, *s), out_height(*p, *s), out_fps(*p, *s)),
                t < p.tracks.len(),
                track == p.tracks@[t as int],
                clips == c.tracks@[t as int],
                with_audio == include_audio(*track),
                is_audio == (track.track_type@ == "audio"@),
                skip_video == (track.track_type@ == "video"@ && track.hidden),
                i <= clips.len(),
                n0 == base.len(),
                jobs@.len() == (base + kept(*track, clips@.take(i as int))).len(),
                forall|n: int|
                    0 <= n < jobs@.len() ==> is_job(#[trigger] jobs@[n], *p, *s, (base + kept(*track, clips@.take(i as int)))[n], n as nat, dir@, sep),
            decreases clips.len() - i,
        {
            let rc = &clips[i];
            let ghost prev = base + kept(*track, clips@.take(i as int));
            assert(clips@.take(i + 1).drop_last() =~= clips@.take(i as int));
            assert(clips@.take(i + 1).last() == *rc);
            if !((skip_video && !rc.has_audio) || (is_audio && track.muted)) {
                let clip = &track.clips[rc.clip];
                assert(rc.track == t);
                assert(clip_in_range(p.tracks@[t as int].clips@[rc.clip as int]));
                let n = jobs.len();
                let out = nut_file(dir, sep, n);
                let args = build_preprocess_args(
                    clip,
                    rc.asset_path.as_str(),
                    rc.is_image,
                    rc.has_audio,
                    w,
                    h,
                    f,
                    with_audio && rc.has_audio,
                    out.as_str(),
                );
                let job = PreprocessJob { clip_id: track.clips[rc.clip].id.clone(), args, output: out };
                let ghost before = jobs@;
                jobs.push(job);
                proof {
                    let cur = base + kept(*track, clips@.take(i + 1));
                    assert(cur =~= prev.push(*rc));
                    assert forall|m: int| 0 <= m < jobs@.len() implies is_job(#[trigger] jobs@[m], *p, *s, cur[m], m as nat, dir@, sep) by {
                        if m < n {
                            assert(jobs@[m] == before[m]);
                        }
                    }
                }
            } else {
                assert(base + kept(*track, clips@.take(i + 1)) =~= prev);
            }
            i = i + 1;
        }
        assert(clips@.take(i as int) =~= clips@);
        t = t + 1;
    }
    jobs
}


/// Whether a track is a visible video track.
pub open spec fn visible_video(t: Track) -> bool {
    t.track_type@ == "video"@ && !t.hidden
}

/// The entries of the map from clip id to intermediate, in the order they
/// are made: the id of each selected clip with the number of the job that
/// normalises it.
pub open spec fn nut_keys(p: Project, answers: Seq<bool>) -> Seq<(Seq<char>, int)> {
    let sel = selected(p, answers);
    Seq::new(sel.len(), |k: int| (clip_of(p, sel[k]).id@, k))
}

/// The entries that normalising jobs give the map from clip id to
/// intermediate: each job's clip id with the job's number.
pub open spec fn job_keys(jobs: Seq<PreprocessJob>) -> Seq<(Seq<char>, int)> {
    Seq::new(jobs.len(), |k: int| (jobs[k].clip_id@, k))
}

/// What a map filled with `keys` in order holds for `id`: the last entry.
pub open spec fn last_key(keys: Seq<(Seq<char>, int)>, id: Seq<char>) -> Option<int>
    decreases keys.len(),
{
    if keys.len() == 0 {
        None
    } else if keys.last().0 == id {
        Some(keys.last().1)
    } else {
        last_key(keys.drop_last(), id)
    }
}

/// The intermediate file that the render takes for the clip with id `id`.
pub open spec fn nut_for(p: Project, answers: Seq<bool>, dir: Seq<char>, sep: char, id: Seq<char>) -> Option<Seq<char>> {
    match last_key(nut_keys(p, answers), id) {
        Some(g) => Some(nut_path(dir, sep, g as nat)),
        None => None,
    }
}

/// The views of a list of map entries.
pub open spec fn key_views(v: Seq<(String, usize)>) -> Seq<(Seq<char>, int)> {
    v.map_values(|k: (String, usize)| (k.0@, k.1 as int))
}

/// The entries of the map from clip id to intermediate: each job's clip
/// id with the job's number.
pub fn intermediate_keys(jobs: &Vec<PreprocessJob>) -> (r: Vec<(String, usize)>)
    ensures
        key_views(r@) == job_keys(jobs@),
{
    let mut keys: Vec<(String, usize)> = Vec::new();
    let mut k: usize = 0;
    while k < jobs.len()
        invariant
            k <= jobs.len(),
            key_views(keys@) == job_keys(jobs@).take(k as int),
        decreases jobs.len() - k,
    {
        let id = jobs[k].clip_id.clone();
        let ghost prev = keys@;
        keys.push((id, k));
        assert(key_views(keys@) =~= key_views(prev).push((jobs@[k as int].clip_id@, k as int)));
        assert(job_keys(jobs@).take(k + 1) =~= job_keys(jobs@).take(k as int).push((jobs@[k as int].clip_id@, k as int)));
        k = k + 1;
    }
    assert(job_keys(jobs@).take(k as int) =~= job_keys(jobs@));
    keys
}

/// Looks up the intermediate of the clip with id `id`: the last entry of
/// `keys` with that id.
pub fn lookup_nut(keys: &Vec<(String, usize)>, id: &str, dir: &str, sep: char) -> (r: Option<String>)
    ensures
        r matches Some(n) ==> last_key(key_views(keys@), id@) matches Some(g) && n@ == nut_path(dir@, sep, g as nat),
        r is None ==> last_key(key_views(keys@), id@) is None,
{
    let mut i = keys.len();
    assert(keys@.take(i as int) =~= keys@);
    while i > 0
        invariant
            i <= keys.len(),
            last_key(key_views(keys@), id@) == last_key(key_views(keys@.take(i as int)), id@),
        decreases i,
    {
        assert(key_views(keys@.take(i as int)).drop_last() =~= key_views(keys@.take(i - 1)));
        assert(key_views(keys@.take(i as int)).last() == (keys@[i - 1].0@, keys@[i - 1].1 as int));
        if str_eq(keys[i - 1].0.as_str(), id) {
            return Some(nut_file(dir, sep, keys[i - 1].1));
        }
        i = i - 1;
    }
    assert(key_views(keys@.take(0)) =~= Seq::<(Seq<char>, int)>::empty());
    None
}

/// Among the first `n` tracks, the visible video track with the most
/// clips; the last such track when several have as many.
pub open spec fn main_upto(p: Project, n: int) -> Option<int>
    decreases n,
{
    if n <= 0 {
        None
    } else {
        let prev = main_upto(p, n - 1);
        let t = n - 1;
        if visible_video(p.tracks@[t]) {
            match prev {
                Some(b) => if p.tracks@[t].clips@.len() >= p.tracks@[b].clips@.len() {
                    Some(t)
                } else {
                    prev
                },
                None => Some(t),
            }
        } else {
            prev
        }
    }
}

/// The main track of a render: the visible video track with the most
/// clips, the last of them on a tie.
pub open spec fn main_track_of(p: Project) -> Option<int> {
    main_upto(p, p.tracks@.len() as int)
}

/// The main track of a render.
pub fn main_track(p: &Project) -> (r: Option<usize>)
    ensures
        r matches Some(t) ==> main_track_of(*p) == Some(t as int) && t < p.tracks@.len(),
        r is None ==> main_track_of(*p) is None,
{
    let mut best: Option<usize> = None;
    let mut t: usize = 0;
    while t < p.tracks.len()
        invariant
            t <= p.tracks.len(),
            best matches Some(b) ==> main_upto(*p, t as int) == Some(b as int) && b < t,
            best is None ==> main_upto(*p, t as int) is None,
        decreases p.tracks.len() - t,
    {
        let track = &p.tracks[t];
        if str_eq(track.track_type.as_str(), "video") && !track.hidden {
            match best {
                Some(b) => {
                    if track.clips.len() >= p.tracks[b].clips.len() {
                        best = Some(t);
                    }
                },
                None => {
                    best = Some(t);
                },
            }
        }
        t = t + 1;
    }
    best
}


/// Different job numbers name different intermediate files, so no
/// intermediate overwrites another.
pub proof fn lemma_nut_path_distinct(dir: Seq<char>, sep: char, a: nat, b: nat)
    requires
        a != b,
    ensures
        nut_path(dir, sep, a) != nut_path(dir, sep, b),
{
    let pre = dir_prefix(dir, sep) + "clip_"@;
    let x = zero_padded(a, 4);
    let y = zero_padded(b, 4);
    let suf = ".nut"@;
    if nut_path(dir, sep, a) == nut_path(dir, sep, b) {
        let pa = pre + x + suf;
        let pb = pre + y + suf;
        assert(nut_path(dir, sep, a) =~= pa);
        assert(nut_path(dir, sep, b) =~= pb);
        assert(x.len() == y.len());
        assert(pa.subrange(pre.len() as int, (pre.len() + x.len()) as int) =~= x);
        assert(pb.subrange(pre.len() as int, (pre.len() + y.len()) as int) =~= y);
        crate::timecode::lemma_zero_padded_digits(a, 4);
        crate::timecode::lemma_zero_padded_digits(b, 4);
    }
}

/// Among the first `n` tracks, the main track is a visible video track
/// with at least as many clips as any other visible video track, and more
/// than any visible video track after it; there is none when no track is
/// a visible video track.
proof fn lemma_main_upto(p: Project, n: int)
    requires
        0 <= n <= p.tracks@.len(),
    ensures
        main_upto(p, n) matches Some(m) ==> 0 <= m < n && visible_video(p.tracks@[m]) && (forall|t: int|
            0 <= t < n && visible_video(#[trigger] p.tracks@[t]) ==> p.tracks@[t].clips@.len()
                <= p.tracks@[m].clips@.len()) && (forall|t: int|
            m < t < n && visible_video(#[trigger] p.tracks@[t]) ==> p.tracks@[t].clips@.len()
                < p.tracks@[m].clips@.len()),
        main_upto(p, n) is None ==> forall|t: int| 0 <= t < n ==> !visible_video(#[trigger] p.tracks@[t]),
    decreases n,
{
    if n > 0 {
        lemma_main_upto(p, n - 1);
    }
}

/// The main track of a render is the visible video track with the most
/// clips, the last of them when several have as many; a render without a
/// visible video track has none.
pub proof fn lemma_main_track(p: Project)
    ensures
        main_track_of(p) matches Some(m) ==> 0 <= m < p.tracks@.len() && visible_video(p.tracks@[m])
            && (forall|t: int|
            0 <= t < p.tracks@.len() && visible_video(#[trigger] p.tracks@[t])
                ==> p.tracks@[t].clips@.len() <= p.tracks@[m].clips@.len()) && (forall|t: int|
            m < t < p.tracks@.len() && visible_video(#[trigger] p.tracks@[t])
                ==> p.tracks@[t].clips@.len() < p.tracks@[m].clips@.len()),
        main_track_of(p) is None ==> forall|t: int|
            0 <= t < p.tracks@.len() ==> !visible_video(#[trigger] p.tracks@[t]),
{
    lemma_main_upto(p, p.tracks@.len() as int);
}


/// What a map filled with `keys` holds for an id is one of its entries.
proof fn lemma_last_key_member(keys: Seq<(Seq<char>, int)>, id: Seq<char>)
    ensures
        last_key(keys, id) matches Some(g) ==> exists|i: int| 0 <= i < keys.len() && #[trigger] keys[i] == (id, g),
    decreases keys.len(),
{
    if keys.len() > 0 && keys.last().0 != id {
        lemma_last_key_member(keys.drop_last(), id);
        if let Some(g) = last_key(keys, id) {
            let i = choose|i: int| 0 <= i < keys.drop_last().len() && #[trigger] keys.drop_last()[i] == (id, g);
            assert(keys[i] == keys.drop_last()[i]);
        }
    } else if keys.len() > 0 {
        assert(keys[keys.len() - 1] == (id, keys.last().1));
    }
}

/// Whether `f` is the intermediate file of one of the render's jobs.
pub open spec fn is_written(p: Project, answers: Seq<bool>, dir: Seq<char>, sep: char, f: Seq<char>) -> bool {
    exists|g: int| 0 <= g < selected(p, answers).len() && f == #[trigger] nut_path(dir, sep, g as nat)
}

/// The intermediate that the render takes for a clip is one that a job of
/// the render writes.
pub proof fn lemma_nut_for_written(p: Project, answers: Seq<bool>, dir: Seq<char>, sep: char, id: Seq<char>)
    ensures
        nut_for(p, answers, dir, sep, id) matches Some(f) ==> is_written(p, answers, dir, sep, f),
{
    let keys = nut_keys(p, answers);
    lemma_last_key_member(keys, id);
    if let Some(g) = last_key(keys, id) {
        let i = choose|i: int| 0 <= i < keys.len() && #[trigger] keys[i] == (id, g);
        assert(0 <= keys[i].1 < selected(p, answers).len());
        assert(nut_for(p, answers, dir, sep, id) == Some(nut_path(dir, sep, g as nat)));
    }
}

/// A map filled with `keys` holds for `id` the entry of the one place `k`
/// that has that id.
proof fn lemma_last_key_unique(keys: Seq<(Seq<char>, int)>, id: Seq<char>, k: int)
    requires
        0 <= k < keys.len(),
        keys[k].0 == id,
        forall|j: int| 0 <= j < keys.len() && j != k ==> (#[trigger] keys[j]).0 != id,
    ensures
        last_key(keys, id) == Some(keys[k].1),
    decreases keys.len(),
{
    if k < keys.len() - 1 {
        let d = keys.drop_last();
        assert(keys[keys.len() - 1].0 != id);
        assert forall|j: int| 0 <= j < d.len() && j != k implies (#[trigger] d[j]).0 != id by {
            assert(d[j] == keys[j]);
        }
        lemma_last_key_unique(d, id, k);
    }
}

/// Every clip that gets an intermediate is read from the file that its
/// own job writes, whatever tracks and skipped clips come before it: the
/// `k`-th selected clip maps to the `k`-th intermediate (clip ids being
/// distinct).
pub proof fn lemma_clip_reads_own_intermediate(p: Project, answers: Seq<bool>, dir: Seq<char>, sep: char, k: int)
    requires
        0 <= k < selected(p, answers).len(),
        forall|j: int|
            0 <= j < selected(p, answers).len() && j != k ==> clip_of(p, #[trigger] selected(p, answers)[j]).id@
                != clip_of(p, selected(p, answers)[k]).id@,
    ensures
        nut_for(p, answers, dir, sep, clip_of(p, selected(p, answers)[k]).id@) == Some(nut_path(dir, sep, k as nat)),
{
    let sel = selected(p, answers);
    let keys = nut_keys(p, answers);
    let id = clip_of(p, sel[k]).id@;
    assert forall|j: int| 0 <= j < keys.len() && j != k implies (#[trigger] keys[j]).0 != id by {
        assert(keys[j].0 == clip_of(p, sel[j]).id@);
    }
    lemma_last_key_unique(keys, id, k);
}

} // verus!
