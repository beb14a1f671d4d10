use kantan_video_edit::clipcmd::{build_preprocess_args, project_duration};
use kantan_video_edit::collect::{audio_probe_paths, collect_clips};
use kantan_video_edit::model::{Clip, ExportSettings, Filters, MediaAsset, Project, TextOverlay, Track};
use kantan_video_edit::plan::main_track;
use kantan_video_edit::render::{check_render_request, plan_render};

const S: i64 = 1_000_000;

fn clip(id: &str, media: &str, from: i64, to: i64, at: i64) -> Clip {
    Clip {
        id: id.to_string(),
        media_id: media.to_string(),
        name: id.to_string(),
        source_start: from,
        source_end: to,
        timeline_start: at,
        volume: S,
        filters: Filters { brightness: 0, contrast: 0, saturation: 0 },
        text_overlay: None,
        fade_in: 0,
        fade_out: 0,
        is_image: None,
    }
}

fn track(kind: &str, clips: Vec<Clip>) -> Track {
    Track {
        id: format!("t-{}", kind),
        track_type: kind.to_string(),
        name: kind.to_string(),
        clips,
        muted: false,
        hidden: false,
        locked: false,
    }
}

fn asset(id: &str, path: &str, kind: &str) -> (String, MediaAsset) {
    (
        id.to_string(),
        MediaAsset {
            id: id.to_string(),
            path: path.to_string(),
            name: id.to_string(),
            media_type: kind.to_string(),
            duration: 10 * S,
        },
    )
}

fn project(tracks: Vec<Track>) -> Project {
    Project {
        name: "p".to_string(),
        width: 1920,
        height: 1080,
        fps: 30,
        tracks,
        assets: vec![
            asset("m1", "/media/a.mp4", "video"),
            asset("m2", "/media/b.mp3", "audio"),
            asset("m3", "/media/c.png", "image"),
        ],
    }
}

fn settings() -> ExportSettings {
    ExportSettings {
        output_path: "/out/video.mp4".to_string(),
        format: "mp4".to_string(),
        video_codec: "libx264".to_string(),
        audio_codec: "aac".to_string(),
        crf: 23,
        preset: "medium".to_string(),
        width: None,
        height: None,
        fps: None,
    }
}

const VF: &str = "fps=30,setpts=PTS-STARTPTS,scale=1920:1080:force_original_aspect_ratio=decrease,pad=1920:1080:(ow-iw)/2:(oh-ih)/2:color=black,setsar=1,eq=brightness=0:contrast=1:saturation=1";

#[test]
fn duration_is_latest_clip_end() {
    let p = project(vec![
        track("video", vec![clip("c1", "m1", 0, 5 * S, 0), clip("c2", "m1", S, 3 * S, 7 * S)]),
        track("audio", vec![clip("c3", "m2", 0, 4 * S, 2 * S)]),
    ]);
    assert_eq!(project_duration(&p), 9 * S);
    assert_eq!(project_duration(&project(vec![])), 0);
}

#[test]
fn preprocess_args_of_plain_clip() {
    let c = clip("c1", "m1", 0, 5 * S, 0);
    let args = build_preprocess_args(&c, "/media/a.mp4", false, true, 1920, 1080, 30, true, "/w/clip_0000.nut");
    let expected: Vec<String> = vec![
        "-y", "-noautorotate", "-ss", "0.000000", "-t", "5.000000", "-i", "/media/a.mp4", "-vf", VF,
        "-c:v", "rawvideo", "-pix_fmt", "yuv420p", "-f", "nut", "-af",
        "aresample=async=1,asetpts=PTS-STARTPTS", "-c:a", "pcm_s16le", "/w/clip_0000.nut",
    ]
    .into_iter()
    .map(String::from)
    .collect();
    assert_eq!(args, expected);
}

#[test]
fn preprocess_args_of_adjusted_image_clip() {
    let mut c = clip("c1", "m3", 0, 20_000, 0);
    c.filters = Filters { brightness: 100_000, contrast: -500_000, saturation: 250_000 };
    c.fade_in = 500_000;
    c.fade_out = 30_000;
    c.volume = 1_500_000;
    c.text_overlay = Some(TextOverlay {
        text: "Hi: 50%".to_string(),
        x: 500_000,
        y: 900_000,
        font_size: 50_000,
        color: "#ffffff".to_string(),
        bold: false,
    });
    let args = build_preprocess_args(&c, "/media/c.png", true, false, 1280, 720, 25, true, "/w/x.nut");
    assert_eq!(args[1..7].to_vec(), vec!["-loop", "1", "-t", "0.050000", "-i", "/media/c.png"]);
    assert_eq!(
        args[8],
        "fps=25,setpts=PTS-STARTPTS,scale=1280:720:force_original_aspect_ratio=decrease,pad=1280:720:(ow-iw)/2:(oh-ih)/2:color=black,setsar=1,eq=brightness=0.1:contrast=0.5:saturation=1.25,fade=t=in:st=0:d=0.500000,fade=t=out:st=0.020000:d=0.030000,drawtext=text=Hi\\: 50\\%:x=(main_w*0.5)-tw/2:y=(main_h*0.9)-th/2:fontsize=36:fontcolor=#ffffff:borderw=2:bordercolor=black@0.6:line_spacing=4"
    );
    assert_eq!(args[15], "-an");
    assert_eq!(args[16], "/w/x.nut");
    assert_eq!(args.len(), 17);
}

#[test]
fn audio_filter_with_volume_and_fades() {
    let mut c = clip("c1", "m2", 0, 4 * S, 0);
    c.volume = 1_500_000;
    c.fade_in = S;
    c.fade_out = 5 * S;
    let args = build_preprocess_args(&c, "/media/b.mp3", false, true, 1920, 1080, 30, true, "/w/b.nut");
    let af = args.iter().position(|a| a == "-af").unwrap();
    assert_eq!(
        args[af + 1],
        "aresample=async=1,asetpts=PTS-STARTPTS,volume=1.5,afade=t=in:st=0:d=1.000000,afade=t=out:st=0.000000:d=5.000000"
    );
}

#[test]
fn blank_caption_is_not_drawn() {
    let mut c = clip("c1", "m1", 0, S, 0);
    c.text_overlay = Some(TextOverlay {
        text: " \t\n".to_string(),
        x: 0,
        y: 0,
        font_size: 0,
        color: "red".to_string(),
        bold: true,
    });
    let args = build_preprocess_args(&c, "/a", false, false, 1920, 1080, 30, true, "/w/a.nut");
    assert_eq!(args[9], VF);
    assert_eq!(args[16], "-an");
}

#[test]
fn clips_are_collected_in_timeline_order() {
    let p = project(vec![track(
        "video",
        vec![
            clip("late", "m1", 0, S, 9 * S),
            clip("missing", "nope", 0, S, 0),
            clip("early", "m3", 0, S, S),
            clip("tie", "m1", 0, S, S),
        ],
    )]);
    let paths = audio_probe_paths(&p);
    assert_eq!(paths, vec!["/media/a.mp4", "/media/a.mp4"]);
    let c = collect_clips(&p, &vec![true, false]);
    let order: Vec<usize> = c.tracks[0].iter().map(|r| r.clip).collect();
    assert_eq!(order, vec![2, 3, 0]);
    assert!(c.tracks[0][0].is_image);
    assert!(!c.tracks[0][0].has_audio);
    assert!(!c.tracks[0][1].has_audio);
    assert!(c.tracks[0][2].has_audio);
    assert!(c.have_video);
    assert!(c.have_audio);
}

#[test]
fn main_track_is_last_of_the_fullest() {
    let p = project(vec![
        track("video", vec![clip("a", "m1", 0, S, 0)]),
        track("audio", vec![clip("b", "m2", 0, S, 0), clip("c", "m2", 0, S, S)]),
        track("video", vec![clip("d", "m1", 0, S, 0)]),
    ]);
    assert_eq!(main_track(&p), Some(2));
    let mut hidden = track("video", vec![clip("a", "m1", 0, S, 0)]);
    hidden.hidden = true;
    assert_eq!(main_track(&project(vec![hidden])), None);
}

#[test]
fn refused_renders() {
    let empty = project(vec![]);
    assert_eq!(check_render_request(&empty, &settings()).err().unwrap(), "Timeline is empty");
    let p = project(vec![track("video", vec![clip("c1", "m1", 0, S, 0)])]);
    let mut s = settings();
    s.output_path = String::new();
    assert_eq!(check_render_request(&p, &s).err().unwrap(), "No output path");
    assert_eq!(check_render_request(&p, &settings()).ok(), Some(S));
    let mut muted = track("audio", vec![clip("a", "m2", 0, S, 0)]);
    muted.muted = true;
    let p = project(vec![muted]);
    assert_eq!(plan_render(&p, &settings(), &vec![], "/work", '/').err().unwrap(), "No clips to render");
}

#[test]
fn render_plan_of_two_clips_with_a_gap() {
    let p = project(vec![track(
        "video",
        vec![clip("c1", "m1", 0, 5 * S, 0), clip("c2", "m1", 0, 2 * S, 7 * S)],
    )]);
    let plan = plan_render(&p, &settings(), &vec![true, true], "/work", '/').unwrap();
    assert_eq!((plan.out_width, plan.out_height, plan.out_fps), (1920, 1080, 30));
    assert_eq!(plan.preprocess.len(), 2);
    assert_eq!(plan.preprocess[0].clip_id, "c1");
    assert_eq!(plan.preprocess[0].output, "/work/clip_0000.nut");
    assert_eq!(plan.preprocess[1].output, "/work/clip_0001.nut");
    // The intermediate is the run's only output: it takes the place of a pipe.
    assert_eq!(plan.preprocess[0].args.last().unwrap(), "/work/clip_0000.nut");
    assert_eq!(plan.preprocess[0].args[plan.preprocess[0].args.len() - 2], "pcm_s16le");
    assert!(plan.preprocess[0].args.iter().all(|a| a != "pipe:1"));
    assert_eq!(plan.gaps.len(), 1);
    assert_eq!(plan.gaps[0].output, "/work/gap_5.000.nut");
    assert_eq!(
        plan.gaps[0].args,
        vec![
            "-y", "-f", "lavfi", "-i", "color=c=black:s=1920x1080:d=2.000000:r=30", "-f", "lavfi",
            "-i", "anullsrc=r=3000:cl=stereo", "-t", "2.000000", "-c:v", "rawvideo", "-pix_fmt",
            "yuv420p", "-c:a", "pcm_s16le", "-f", "nut", "/work/gap_5.000.nut"
        ]
    );
    assert!(plan.trailing_gap.is_none());
    assert_eq!(plan.concat_path, "/work/concat.txt");
    assert_eq!(
        plan.concat_list,
        "file '/work/clip_0000.nut'\nfile '/work/gap_5.000.nut'\nfile '/work/clip_0001.nut'\n"
    );
    assert_eq!(plan.filter_graph, "[0:a]anull[aout];[0:v]null[vout]");
    assert_eq!(
        plan.final_args,
        vec![
            "-y", "-f", "concat", "-safe", "0", "-i", "/work/concat.txt", "-filter_complex",
            "[0:a]anull[aout];[0:v]null[vout]", "-map", "[vout]", "-map", "[aout]", "-c:v",
            "libx264", "-crf", "23", "-preset", "medium", "-pix_fmt", "yuv420p", "-r", "30",
            "-c:a", "aac", "-b:a", "192k", "-movflags", "+faststart", "/out/video.mp4"
        ]
    );
}

#[test]
fn render_plan_with_overlay_and_audio_track() {
    let p = project(vec![
        track("video", vec![clip("c1", "m1", 0, 5 * S, 0), clip("c2", "m1", 0, 2 * S, 5 * S)]),
        track("video", vec![clip("c3", "m1", 0, 2 * S, S)]),
        track("audio", vec![clip("c4", "m2", 0, 12 * S, 2 * S)]),
    ]);
    let probes = audio_probe_paths(&p);
    assert_eq!(probes.len(), 3);
    let mut s = settings();
    s.video_codec = "libvpx-vp9".to_string();
    s.width = Some(1280);
    s.height = Some(720);
    s.fps = Some(0);
    let plan = plan_render(&p, &s, &vec![true, true, true], "C:\\tmp", '\\').unwrap();
    assert_eq!((plan.out_width, plan.out_height, plan.out_fps), (1280, 720, 1));
    let outs: Vec<&str> = plan.preprocess.iter().map(|j| j.output.as_str()).collect();
    assert_eq!(outs, vec!["C:\\tmp\\clip_0000.nut", "C:\\tmp\\clip_0001.nut", "C:\\tmp\\clip_0002.nut", "C:\\tmp\\clip_0003.nut"]);
    assert!(plan.gaps.is_empty());
    let trailing = plan.trailing_gap.as_ref().unwrap();
    assert_eq!(trailing.output, "C:\\tmp\\gap_trailing.nut");
    assert_eq!(trailing.args[4], "color=c=black:s=1280x720:d=7.000000:r=1");
    assert_eq!(trailing.args[8], "anullsrc=r=100:cl=stereo");
    assert_eq!(
        plan.concat_list,
        "file 'C:/tmp/clip_0000.nut'\nfile 'C:/tmp/clip_0001.nut'\nfile 'C:/tmp/gap_trailing.nut'\n"
    );
    // The audio track's clip is delayed by its start and mixed in.
    assert_eq!(
        plan.filter_graph,
        "[1:v]setpts=PTS+1.000000/TB[ov0];[0:v][ov0]overlay=x=0:y=0:enable='between(t,1.000000,3.000000)':format=auto[ovr0];[2:a]adelay=2000|2000,asetpts=PTS+2.000000/TB[ao0];[0:a][ao0]amix=inputs=2:duration=longest:normalize=0[aout];[ovr0]null[vout]"
    );
    assert_eq!(
        plan.final_args[7..12].to_vec(),
        vec!["-i", "C:\\tmp\\clip_0002.nut", "-i", "C:\\tmp\\clip_0003.nut", "-filter_complex"]
    );
    // The overlay reads the intermediate of the third job, the mix that of
    // the fourth.
    assert_eq!(plan.preprocess[2].clip_id, "c3");
    assert_eq!(plan.preprocess[2].output, plan.final_args[8]);
    assert_eq!(plan.preprocess[3].clip_id, "c4");
    assert_eq!(plan.preprocess[3].output, plan.final_args[10]);
    assert_eq!(plan.final_args[18], "libvpx-vp9");
    assert_eq!(plan.final_args[19], "-pix_fmt");
}

#[test]
fn intermediates_follow_the_jobs_after_a_muted_track() {
    let mut muted = track("audio", vec![clip("a", "m2", 0, S, 0)]);
    muted.muted = true;
    let p = project(vec![muted, track("video", vec![clip("v", "m1", 0, 2 * S, 0)])]);
    let plan = plan_render(&p, &settings(), &vec![true], "/work", '/').unwrap();
    assert_eq!(plan.preprocess.len(), 1);
    assert_eq!(plan.preprocess[0].clip_id, "v");
    assert_eq!(plan.preprocess[0].output, "/work/clip_0000.nut");
    assert_eq!(plan.concat_list, "file '/work/clip_0000.nut'\n");
    assert_eq!(plan.filter_graph, "[0:a]anull[aout];[0:v]null[vout]");
}
