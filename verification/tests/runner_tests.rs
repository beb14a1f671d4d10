use kantan_video_edit::clipcmd::build_preprocess_args;
use kantan_video_edit::gaps::GapJob;
use kantan_video_edit::model::{Clip, Filters};
use kantan_video_edit::plan::PreprocessJob;
use kantan_video_edit::probe::parse_frame_rate;
use kantan_video_edit::render::RenderPlan;
use kantan_video_edit::numfmt::fmt_fixed;
use kantan_video_edit::runner::{exit_code_text, first_stage, render_step, RenderStage, StepOutcome};

fn job(id: &str, out: &str) -> PreprocessJob {
    PreprocessJob { clip_id: id.to_string(), args: vec![out.to_string()], output: out.to_string() }
}

fn gap(out: &str) -> GapJob {
    GapJob { args: vec![out.to_string()], output: out.to_string() }
}

fn plan(jobs: usize, gaps: usize, trailing: bool) -> RenderPlan {
    RenderPlan {
        out_width: 1920,
        out_height: 1080,
        out_fps: 30,
        preprocess: (0..jobs).map(|i| job(&format!("c{}", i), &format!("/w/clip_{:04}.nut", i))).collect(),
        gaps: (0..gaps).map(|i| gap(&format!("/w/gap_{}.nut", i))).collect(),
        trailing_gap: if trailing { Some(gap("/w/gap_trailing.nut")) } else { None },
        concat_path: "/w/concat.txt".to_string(),
        concat_list: String::new(),
        filter_graph: String::new(),
        final_args: vec![],
    }
}

#[test]
fn successful_run_visits_every_step_in_order() {
    let p = plan(2, 1, true);
    let mut stage = first_stage(&p);
    let mut seen = Vec::new();
    loop {
        seen.push(format!("{:?}", std::mem::discriminant(&stage)));
        if matches!(stage, RenderStage::Done) {
            break;
        }
        stage = render_step(&p, &stage, &StepOutcome::Succeeded).unwrap();
    }
    // two clips, one filler, the closing filler, the list, the encode, done
    assert_eq!(seen.len(), 2 + 1 + 1 + 2 + 1);
}

#[test]
fn run_without_fillers_goes_to_the_list() {
    let p = plan(1, 0, false);
    assert!(matches!(first_stage(&p), RenderStage::Preprocess(0)));
    let next = render_step(&p, &RenderStage::Preprocess(0), &StepOutcome::Succeeded).unwrap();
    assert!(matches!(next, RenderStage::WriteList));
}

#[test]
fn failed_steps_end_the_render() {
    let p = plan(2, 1, true);
    let e = render_step(&p, &RenderStage::Preprocess(1), &StepOutcome::Exited(Some(1))).err().unwrap();
    assert_eq!(e, "Pre-process failed for clip c1 (exit Some(1))");
    let e = render_step(&p, &RenderStage::Preprocess(0), &StepOutcome::SpawnFailed("not found".to_string())).err().unwrap();
    assert_eq!(e, "Pre-process failed: not found");
    let e = render_step(&p, &RenderStage::Gap(0), &StepOutcome::Exited(None)).err().unwrap();
    assert_eq!(e, "Gap gen failed (exit None)");
    let e = render_step(&p, &RenderStage::Gap(0), &StepOutcome::SpawnFailed("denied".to_string())).err().unwrap();
    assert_eq!(e, "Gap gen: denied");
    let e = render_step(&p, &RenderStage::WriteList, &StepOutcome::IoFailed("disk full".to_string())).err().unwrap();
    assert_eq!(e, "disk full");
    let e = render_step(&p, &RenderStage::Encode, &StepOutcome::Exited(Some(-9))).err().unwrap();
    assert_eq!(e, "ffmpeg exited with code Some(-9)");
    let e = render_step(&p, &RenderStage::Encode, &StepOutcome::SpawnFailed("x".to_string())).err().unwrap();
    assert_eq!(e, "ffmpeg spawn: x");
    let e = render_step(&p, &RenderStage::Encode, &StepOutcome::WaitFailed("y".to_string())).err().unwrap();
    assert_eq!(e, "ffmpeg wait: y");
}

#[test]
fn closing_filler_failure_is_ignored() {
    let p = plan(1, 0, true);
    let next = render_step(&p, &RenderStage::TrailingGap, &StepOutcome::Exited(Some(1))).unwrap();
    assert!(matches!(next, RenderStage::WriteList));
}

#[test]
fn exit_codes_print_like_options() {
    assert_eq!(exit_code_text(Some(0)), "Some(0)");
    assert_eq!(exit_code_text(Some(-2147483648)), "Some(-2147483648)");
    assert_eq!(exit_code_text(None), "None");
}

#[test]
fn printed_numbers_read_back() {
    for v in [-2_500_000i64, 0, 1, 29_970_000, 1_000_000_000_000_000] {
        let text = format!("{}/1", fmt_fixed(v));
        let f = parse_frame_rate(&text);
        assert_eq!(f.map(|f| f.num), Some(v));
    }
}

#[test]
fn short_clip_gets_minimum_length() {
    let c = Clip {
        id: "c".to_string(),
        media_id: "m".to_string(),
        name: "c".to_string(),
        source_start: 3_000_000,
        source_end: 3_000_000,
        timeline_start: 0,
        volume: 1_000_000,
        filters: Filters { brightness: 0, contrast: 0, saturation: 0 },
        text_overlay: None,
        fade_in: 0,
        fade_out: 0,
        is_image: None,
    };
    let args = build_preprocess_args(&c, "/a", false, true, 640, 480, 24, false, "/w/clip_0000.nut");
    assert_eq!(args[3], "3.000000");
    assert_eq!(args[5], "0.050000");
}
