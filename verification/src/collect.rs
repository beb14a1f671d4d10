//! Gathering the clips of each track for a render: the media file of each
//! clip, whether it is a still image and whether it carries sound, ordered
//! by position on the timeline.

use vstd::prelude::*;
use crate::args::{texts, push_arg};
use crate::model::{Clip, MediaAsset, Project, Track, asset_index, find_asset, lemma_asset_index_from};
use crate::text::str_eq;

verus! {

/// A clip that takes part in a render.
pub struct RenderClip {
    /// Index of its track in the project.
    pub track: usize,
    /// Index of the clip in its track.
    pub clip: usize,
    /// Its position on the timeline, in microseconds.
    pub start: i64,
    /// The file of its media.
    pub asset_path: String,
    pub is_image: bool,
    pub has_audio: bool,
}

/// The clips of every track, in the order of the tracks, and whether any
/// visible video or any sound was found.
pub struct CollectedClips {
    pub tracks: Vec<Vec<RenderClip>>,
    pub have_video: bool,
    pub have_audio: bool,
}

/// A clip shows a still image when its media is an image or it says so.
pub open spec fn is_image_clip(c: Clip, a: MediaAsset) -> bool {
    a.media_type@ == "image"@ || c.is_image == Some(true)
}

/// Whether the file of a clip has to be probed for an audio stream: it is
/// neither an image nor an audio file.
pub open spec fn needs_probe(c: Clip, a: MediaAsset) -> bool {
    !is_image_clip(c, a) && a.media_type@ != "audio"@
}

/// The file to probe for clip `c`, if any.
pub open spec fn clip_probe(p: Project, c: Clip) -> Seq<Seq<char>> {
    match asset_index(p.assets@, c.media_id@) {
        Some(i) => if needs_probe(c, p.assets@[i].1) {
            seq![p.assets@[i].1.path@]
        } else {
            seq![]
        },
        None => seq![],
    }
}

/// The files to probe for `clips`, in order.
pub open spec fn clips_probes(p: Project, clips: Seq<Clip>) -> Seq<Seq<char>>
    decreases clips.len(),
{
    if clips.len() == 0 {
        seq![]
    } else {
        clips_probes(p, clips.drop_last()) + clip_probe(p, clips.last())
    }
}

/// The files to probe for the clips of `tracks`, track by track.
pub open spec fn tracks_probes(p: Project, tracks: Seq<Track>) -> Seq<Seq<char>>
    decreases tracks.len(),
{
    if tracks.len() == 0 {
        seq![]
    } else {
        tracks_probes(p, tracks.drop_last()) + clips_probes(p, tracks.last().clips@)
    }
}

/// The files that have to be probed for an audio stream before the clips
/// of `p` can be collected, one per clip that needs it, track by track.
pub open spec fn probe_paths(p: Project) -> Seq<Seq<char>> {
    tracks_probes(p, p.tracks@)
}

/// Where the answer for clip `j` of track `t` stands among the probe results.
pub open spec fn probe_offset(p: Project, t: int, j: int) -> int {
    (tracks_probes(p, p.tracks@.take(t)).len() + clips_probes(p, p.tracks@[t].clips@.take(j)).len()) as int
}

/// The render clip of clip `j` of track `t`, when its media is known;
/// `answers` are the results of probing `probe_paths(p)`.
pub open spec fn render_entry(p: Project, t: int, j: int, answers: Seq<bool>) -> Option<RenderClip> {
    let c = p.tracks@[t].clips@[j];
    match asset_index(p.assets@, c.media_id@) {
        Some(i) => {
            let a = p.assets@[i].1;
            Some(
                RenderClip {
                    track: t as usize,
                    clip: j as usize,
                    start: c.timeline_start,
                    asset_path: a.path,
                    is_image: is_image_clip(c, a),
                    has_audio: if is_image_clip(c, a) {
                        false
                    } else if a.media_type@ == "audio"@ {
                        true
                    } else {
                        answers[probe_offset(p, t, j)]
                    },
                },
            )
        },
        None => None,
    }
}

/// The render clips of the first `n` clips of track `t`, in track order.
pub open spec fn track_entries(p: Project, t: int, n: int, answers: Seq<bool>) -> Seq<RenderClip>
    decreases n,
{
    if n <= 0 {
        seq![]
    } else {
        let prev = track_entries(p, t, n - 1, answers);
        match render_entry(p, t, n - 1, answers) {
            Some(r) => prev.push(r),
            None => prev,
        }
    }
}

/// Where a clip starting at `k` goes into `s`: after every clip that does
/// not start later.
pub open spec fn insert_pos(s: Seq<RenderClip>, k: int) -> int
    decreases s.len(),
{
    if s.len() == 0 {
        0
    } else if s.last().start > k {
        insert_pos(s.drop_last(), k)
    } else {
        s.len() as int
    }
}

/// `s` ordered by start, clips that start together keeping their order
/// (a stable sort).
pub open spec fn sort_by_start(s: Seq<RenderClip>) -> Seq<RenderClip>
    decreases s.len(),
{
    if s.len() == 0 {
        s
    } else {
        let rest = sort_by_start(s.drop_last());
        rest.insert(insert_pos(rest, s.last().start as int), s.last())
    }
}

/// The collected clips of track `t`: its clips with known media, ordered
/// by position on the timeline.
pub open spec fn collected_track(p: Project, t: int, answers: Seq<bool>) -> Seq<RenderClip> {
    sort_by_start(track_entries(p, t, p.tracks@[t].clips@.len() as int, answers))
}

/// Whether clip `j` of track `t` has known media, not itself an audio
/// file, on a visible video track.
pub open spec fn video_at(p: Project, t: int, j: int) -> bool {
    let c = p.tracks@[t].clips@[j];
    match asset_index(p.assets@, c.media_id@) {
        Some(i) => p.tracks@[t].track_type@ == "video"@ && !p.tracks@[t].hidden
            && p.assets@[i].1.media_type@ != "audio"@,
        None => false,
    }
}

/// Whether clip `j` of track `t` is collected and carries sound.
pub open spec fn audio_at(p: Project, t: int, j: int, answers: Seq<bool>) -> bool {
    render_entry(p, t, j, answers) matches Some(r) && r.has_audio
}

/// Whether clip `j` of track `t` comes before clip `j0` of track `t0`.
pub open spec fn clip_before(p: Project, t: int, j: int, t0: int, j0: int) -> bool {
    (0 <= t < t0 && 0 <= j < p.tracks@[t].clips@.len()) || (t == t0 && 0 <= j < j0)
}

/// Whether some clip with known media, not itself an audio file, lies on a
/// visible video track.
pub open spec fn has_visible_video(p: Project) -> bool {
    exists|t: int, j: int|
        0 <= t < p.tracks@.len() && 0 <= j < p.tracks@[t].clips@.len() && #[trigger] video_at(p, t, j)
}

/// Whether some collected clip carries sound.
pub open spec fn has_any_audio(p: Project, answers: Seq<bool>) -> bool {
    exists|t: int, j: int|
        0 <= t < p.tracks@.len() && 0 <= j < p.tracks@[t].clips@.len() && #[trigger] audio_at(
            p,
            t,
            j,
            answers,
        )
}

/// The files to probe for an audio stream, one per clip whose media is
/// neither an image nor an audio file, track by track.
pub fn audio_probe_paths(p: &Project) -> (r: Vec<String>)
    ensures
        texts(r@) == probe_paths(*p),
{
    let mut r: Vec<String> = Vec::new();
    let mut t: usize = 0;
    while t < p.tracks.len()
        invariant
            t <= p.tracks.len(),
            texts(r@) == tracks_probes(*p, p.tracks@.take(t as int)),
        decreases p.tracks.len() - t,
    {
        let track = &p.tracks[t];
        let ghost before = texts(r@);
        let mut j: usize = 0;
        assert(track.clips@.take(0) =~= Seq::<Clip>::empty());
        assert(before + clips_probes(*p, track.clips@.take(0)) =~= before);
        while j < track.clips.len()
            invariant
                t < p.tracks.len(),
                track == p.tracks@[t as int],
                j <= track.clips.len(),
                texts(r@) == before + clips_probes(*p, track.clips@.take(j as int)),
            decreases track.clips.len() - j,
        {
            let c = &track.clips[j];
            let ghost mid = texts(r@);
            match find_asset(&p.assets, c.media_id.as_str()) {
                Some(i) => {
                    let a = &p.assets[i].1;
                    let img = str_eq(a.media_type.as_str(), "image") || c.is_image == Some(true);
                    if !img && !str_eq(a.media_type.as_str(), "audio") {
                        push_arg(&mut r, a.path.as_str());
                    }
                },
                None => {},
            }
            assert(texts(r@) =~= mid + clip_probe(*p, *c));
            assert(track.clips@.take(j + 1).drop_last() =~= track.clips@.take(j as int));
            assert(track.clips@.take(j + 1).last() == *c);
            j = j + 1;
        }
        assert(track.clips@.take(j as int) =~= track.clips@);
        assert(p.tracks@.take(t + 1).drop_last() =~= p.tracks@.take(t as int));
        t = t + 1;
    }
    assert(p.tracks@.take(t as int) =~= p.tracks@);
    r
}


/// A prefix of the clips needs no more probes than all of them.
proof fn lemma_clips_probes_prefix(p: Project, clips: Seq<Clip>, n: int)
    requires
        0 <= n <= clips.len(),
    ensures
        clips_probes(p, clips.take(n)).len() <= clips_probes(p, clips).len(),
    decreases clips.len(),
{
    if n < clips.len() {
        lemma_clips_probes_prefix(p, clips.drop_last(), n);
        assert(clips.drop_last().take(n) =~= clips.take(n));
    } else {
        assert(clips.take(n) =~= clips);
    }
}

/// A prefix of the tracks needs no more probes than all of them.
proof fn lemma_tracks_probes_prefix(p: Project, tracks: Seq<Track>, n: int)
    requires
        0 <= n <= tracks.len(),
    ensures
        tracks_probes(p, tracks.take(n)).len() <= tracks_probes(p, tracks).len(),
    decreases tracks.len(),
{
    if n < tracks.len() {
        lemma_tracks_probes_prefix(p, tracks.drop_last(), n);
        assert(tracks.drop_last().take(n) =~= tracks.take(n));
    } else {
        assert(tracks.take(n) =~= tracks);
    }
}

/// Puts `x` into the ordered clips `sorted` after every clip that does not
/// start later.
fn insert_by_start(sorted: &mut Vec<RenderClip>, x: RenderClip)
    ensures
        final(sorted)@ == old(sorted)@.insert(insert_pos(old(sorted)@, x.start as int), x),
{
    let k = x.start;
    let mut j = sorted.len();
    assert(sorted@.take(j as int) =~= sorted@);
    while j > 0 && sorted[j - 1].start > k
        invariant
            j <= sorted.len(),
            sorted@ == old(sorted)@,
            insert_pos(sorted@, k as int) == insert_pos(sorted@.take(j as int), k as int),
        decreases j,
    {
        assert(sorted@.take(j as int).drop_last() =~= sorted@.take(j - 1));
        j = j - 1;
    }
    if j > 0 {
        assert(sorted@.take(j as int).last() == sorted@[j - 1]);
    } else {
        assert(sorted@.take(0) =~= Seq::<RenderClip>::empty());
    }
    sorted.insert(j, x);
}

/// Gathers, for each track, the clips whose media is in the library,
/// ordered by position on the timeline (clips that start together keep
/// their order). `probes` holds the answers for `audio_probe_paths(p)`, in
/// order: whether each file has an audio stream. An image never carries
/// sound and an audio file always does.
pub fn collect_clips(p: &Project, probes: &Vec<bool>) -> (r: CollectedClips)
    requires
        probes@.len() == probe_paths(*p).len(),
    ensures
        r.tracks@.len() == p.tracks@.len(),
        forall|t: int| 0 <= t < p.tracks@.len() ==> #[trigger] r.tracks@[t]@ == collected_track(*p, t, probes@),
        r.have_video == has_visible_video(*p),
        r.have_audio == has_any_audio(*p, probes@),
{
    let ghost answers = probes@;
    let mut out: Vec<Vec<RenderClip>> = Vec::new();
    let mut have_video = false;
    let mut have_audio = false;
    let mut k: usize = 0;
    let mut t: usize = 0;
    while t < p.tracks.len()
        invariant
            answers == probes@,
            probes@.len() == probe_paths(*p).len(),
            t <= p.tracks.len(),
            out@.len() == t,
            forall|t2: int| 0 <= t2 < t ==> #[trigger] out@[t2]@ == collected_track(*p, t2, answers),
            k == tracks_probes(*p, p.tracks@.take(t as int)).len(),
            have_video == exists|t2: int, j2: int| clip_before(*p, t2, j2, t as int, 0) && #[trigger] video_at(*p, t2, j2),
            have_audio == exists|t2: int, j2: int| clip_before(*p, t2, j2, t as int, 0) && #[trigger] audio_at(*p, t2, j2, answers),
        decreases p.tracks.len() - t,
    {
        let track = &p.tracks[t];
        let is_video_track = str_eq(track.track_type.as_str(), "video");
        let mut sorted: Vec<RenderClip> = Vec::new();
        let ghost k0 = k;
        let mut j: usize = 0;
        assert(track.clips@.take(0) =~= Seq::<Clip>::empty());
        while j < track.clips.len()
            invariant
                answers == probes@,
                probes@.len() == probe_paths(*p).len(),
                t < p.tracks.len(),
                track == p.tracks@[t as int],
                is_video_track == (track.track_type@ == "video"@),
                j <= track.clips.len(),
                k0 == tracks_probes(*p, p.tracks@.take(t as int)).len(),
                k == k0 + clips_probes(*p, track.clips@.take(j as int)).len(),
                sorted@ == sort_by_start(track_entries(*p, t as int, j as int, answers)),
                have_video == exists|t2: int, j2: int| clip_before(*p, t2, j2, t as int, j as int) && #[trigger] video_at(*p, t2, j2),
                have_audio == exists|t2: int, j2: int| clip_before(*p, t2, j2, t as int, j as int) && #[trigger] audio_at(*p, t2, j2, answers),
            decreases track.clips.len() - j,
        {
            let c = &track.clips[j];
            assert(track.clips@.take(j + 1).drop_last() =~= track.clips@.take(j as int));
            assert(track.clips@.take(j + 1).last() == *c);
            let ghost entries = track_entries(*p, t as int, j as int, answers);
            proof {
                lemma_clips_probes_prefix(*p, track.clips@, j + 1);
                lemma_tracks_probes_prefix(*p, p.tracks@, t + 1);
                assert(p.tracks@.take(t + 1).drop_last() =~= p.tracks@.take(t as int));
                assert(p.tracks@.take(t + 1).last() == *track);
                assert(clips_probes(*p, track.clips@.take(j + 1)) == clips_probes(*p, track.clips@.take(j as int)) + clip_probe(*p, *c));
                assert(tracks_probes(*p, p.tracks@.take(t + 1)) == tracks_probes(*p, p.tracks@.take(t as int)) + clips_probes(*p, track.clips@));
            }
            match find_asset(&p.assets, c.media_id.as_str()) {
                Some(i) => {
                    let a = &p.assets[i].1;
                    let img = str_eq(a.media_type.as_str(), "image") || c.is_image == Some(true);
                    let audio_file = str_eq(a.media_type.as_str(), "audio");
                    if !img && !audio_file {
                        assert(clip_probe(*p, *c) =~= seq![a.path@]);
                        assert(k0 + clips_probes(*p, track.clips@).len() <= probes@.len());
                        assert(k + 1 <= k0 + clips_probes(*p, track.clips@).len());
                        let n = probes.len();
                        assert(k < n);
                        k = k + 1;
                    }
                    let has_audio = if img {
                        false
                    } else if audio_file {
                        true
                    } else {
                        probes[k - 1]
                    };
                    if is_video_track && !track.hidden && !audio_file {
                        have_video = true;
                    }
                    if has_audio {
                        have_audio = true;
                    }
                    let rc = RenderClip {
                        track: t,
                        clip: j,
                        start: c.timeline_start,
                        asset_path: a.path.clone(),
                        is_image: img,
                        has_audio,
                    };
                    assert(render_entry(*p, t as int, j as int, answers) == Some(rc));
                    assert(video_at(*p, t as int, j as int) == (is_video_track && !track.hidden && !audio_file));
                    assert(audio_at(*p, t as int, j as int, answers) == has_audio);
                    insert_by_start(&mut sorted, rc);
                    assert(track_entries(*p, t as int, j + 1, answers) == entries.push(rc));
                    assert(entries.push(rc).drop_last() =~= entries);
                },
                None => {
                    assert(!video_at(*p, t as int, j as int));
                    assert(!audio_at(*p, t as int, j as int, answers));
                },
            }
            j = j + 1;
        }
        assert(track.clips@.take(j as int) =~= track.clips@);
        assert(p.tracks@.take(t + 1).drop_last() =~= p.tracks@.take(t as int));
        out.push(sorted);
        t = t + 1;
    }
    assert(p.tracks@.take(t as int) =~= p.tracks@);
    CollectedClips { tracks: out, have_video, have_audio }
}


/// Clips ordered by start, and by place in their track when they start
/// together.
pub open spec fn ordered_by_start(s: Seq<RenderClip>) -> bool {
    forall|i: int, j: int|
        0 <= i < j < s.len() ==> (#[trigger] s[i]).start < (#[trigger] s[j]).start || (s[i].start
            == s[j].start && s[i].clip < s[j].clip)
}

/// Clips in strictly increasing place in their track.
pub open spec fn increasing_clip(s: Seq<RenderClip>) -> bool {
    forall|i: int, j: int| 0 <= i < j < s.len() ==> (#[trigger] s[i]).clip < (#[trigger] s[j]).clip
}

/// Where `insert_pos` puts a clip into clips ordered by start.
proof fn lemma_insert_pos(s: Seq<RenderClip>, k: int)
    requires
        forall|i: int, j: int| 0 <= i < j < s.len() ==> (#[trigger] s[i]).start <= (#[trigger] s[j]).start,
    ensures
        0 <= insert_pos(s, k) <= s.len(),
        forall|i: int| 0 <= i < insert_pos(s, k) ==> (#[trigger] s[i]).start <= k,
        forall|i: int| insert_pos(s, k) <= i < s.len() ==> (#[trigger] s[i]).start > k,
    decreases s.len(),
{
    if s.len() > 0 {
        if s.last().start > k {
            let d = s.drop_last();
            assert forall|i: int, j: int| 0 <= i < j < d.len() implies (#[trigger] d[i]).start <= (#[trigger] d[j]).start by {
                assert(d[i] == s[i] && d[j] == s[j]);
            }
            lemma_insert_pos(d, k);
            assert forall|i: int| 0 <= i < insert_pos(s, k) implies (#[trigger] s[i]).start <= k by {
                assert(d[i] == s[i]);
            }
            assert forall|i: int| insert_pos(s, k) <= i < s.len() implies (#[trigger] s[i]).start > k by {
                if i < s.len() - 1 {
                    assert(d[i] == s[i]);
                }
            }
        } else {
            assert forall|i: int| 0 <= i < s.len() implies (#[trigger] s[i]).start <= k by {
                if i < s.len() - 1 {
                    assert(s[i].start <= s[s.len() - 1].start);
                }
            }
        }
    }
}

/// Sorting by start orders the clips by start and by place in their track,
/// and keeps every clip, when they come in increasing place.
pub proof fn lemma_sort_by_start(s: Seq<RenderClip>)
    requires
        increasing_clip(s),
    ensures
        ordered_by_start(sort_by_start(s)),
        sort_by_start(s).to_multiset() == s.to_multiset(),
        sort_by_start(s).len() == s.len(),
    decreases s.len(),
{
    broadcast use vstd::seq_lib::to_multiset_insert, vstd::seq_lib::to_multiset_build,
        vstd::seq_lib::to_multiset_contains;

    if s.len() > 0 {
        let init = s.drop_last();
        let x = s.last();
        lemma_sort_by_start(init);
        let rest = sort_by_start(init);
        lemma_insert_pos(rest, x.start as int);
        let pos = insert_pos(rest, x.start as int);
        let out = rest.insert(pos, x);
        assert(s =~= init.push(x));
        assert forall|i: int| 0 <= i < rest.len() implies (#[trigger] rest[i]).clip < x.clip by {
            assert(rest.to_multiset().count(rest[i]) > 0);
            assert(init.to_multiset().count(rest[i]) > 0);
            assert(init.contains(rest[i]));
            let k = choose|k: int| 0 <= k < init.len() && init[k] == rest[i];
            assert(s[k] == init[k]);
            assert(s[s.len() - 1] == x);
        }
        rest.insert_ensures(pos, x);
        assert forall|i: int, j: int| 0 <= i < j < out.len() implies (#[trigger] out[i]).start < (
        #[trigger] out[j]).start || (out[i].start == out[j].start && out[i].clip < out[j].clip) by {
            if j < pos {
                assert(out[i] == rest[i] && out[j] == rest[j]);
            } else if j == pos {
                assert(out[i] == rest[i]);
            } else if i < pos {
                assert(out[i] == rest[i] && out[j] == rest[j - 1]);
            } else if i == pos {
                assert(out[j] == rest[j - 1]);
            } else {
                assert(out[i] == rest[i - 1] && out[j] == rest[j - 1]);
            }
        }
    }
}

/// The render clips of a track come in increasing place in the track.
proof fn lemma_track_entries(p: Project, t: int, n: int, answers: Seq<bool>)
    requires
        n <= usize::MAX,
        0 <= t <= usize::MAX,
    ensures
        increasing_clip(track_entries(p, t, n, answers)),
        forall|i: int| 0 <= i < track_entries(p, t, n, answers).len() ==> (#[trigger] track_entries(p, t, n, answers)[i]).track == t,
        forall|i: int| 0 <= i < track_entries(p, t, n, answers).len() ==> (#[trigger] track_entries(p, t, n, answers)[i]).clip < n,
    decreases n,
{
    if n > 0 {
        lemma_track_entries(p, t, n - 1, answers);
        let prev = track_entries(p, t, n - 1, answers);
        match render_entry(p, t, n - 1, answers) {
            Some(r) => {
                assert(r.clip == n - 1);
                let cur = prev.push(r);
                assert(cur == track_entries(p, t, n, answers));
                assert forall|i: int, j: int| 0 <= i < j < cur.len() implies (#[trigger] cur[i]).clip < (#[trigger] cur[j]).clip by {
                    if j < prev.len() {
                        assert(cur[i] == prev[i] && cur[j] == prev[j]);
                    } else {
                        assert(cur[i] == prev[i]);
                    }
                }
                assert forall|i: int| 0 <= i < cur.len() implies (#[trigger] cur[i]).clip < n && cur[i].track == t by {
                    if i < prev.len() {
                        assert(cur[i] == prev[i]);
                    }
                }
            },
            None => {},
        }
    }
}

/// The collected clips of a track are its clips with known media, each
/// once, ordered by position on the timeline; clips that start together
/// keep their order in the track.
pub proof fn lemma_collected_track(p: Project, t: int, answers: Seq<bool>)
    requires
        0 <= t < p.tracks@.len(),
        p.tracks@.len() <= usize::MAX,
        p.tracks@[t].clips@.len() <= usize::MAX,
    ensures
        ordered_by_start(collected_track(p, t, answers)),
        forall|i: int| 0 <= i < collected_track(p, t, answers).len() ==> (#[trigger] collected_track(p, t, answers)[i]).track == t
            && collected_track(p, t, answers)[i].clip < p.tracks@[t].clips@.len(),
        collected_track(p, t, answers).to_multiset() == track_entries(
            p,
            t,
            p.tracks@[t].clips@.len() as int,
            answers,
        ).to_multiset(),
{
    broadcast use vstd::seq_lib::to_multiset_contains;

    let e = track_entries(p, t, p.tracks@[t].clips@.len() as int, answers);
    lemma_track_entries(p, t, p.tracks@[t].clips@.len() as int, answers);
    lemma_sort_by_start(e);
    let r = collected_track(p, t, answers);
    assert forall|i: int| 0 <= i < r.len() implies (#[trigger] r[i]).track == t && r[i].clip < p.tracks@[t].clips@.len() by {
        assert(r.to_multiset().count(r[i]) > 0);
        assert(e.to_multiset().count(r[i]) > 0);
        assert(e.contains(r[i]));
        let k = choose|k: int| 0 <= k < e.len() && e[k] == r[i];
        assert(e[k].track == t);
    }
}

} // verus!
