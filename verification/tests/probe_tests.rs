use kantan_video_edit::probe::{
    build_thumbnail_args, has_audio_answer, parse_frame_rate, summarize_probe, thumbnail_path,
    wants_thumbnail, ProbeFormat, ProbeReport, ProbeStream,
};

fn stream(kind: &str, codec: &str) -> ProbeStream {
    ProbeStream {
        codec_type: Some(kind.to_string()),
        codec_name: Some(codec.to_string()),
        width: None,
        height: None,
        avg_frame_rate: None,
        r_frame_rate: None,
        duration: None,
    }
}

#[test]
fn frame_rate_is_a_quotient() {
    let f = parse_frame_rate("30000/1001").unwrap();
    assert_eq!((f.num, f.den), (30_000_000_000, 1_001_000_000));
    let f = parse_frame_rate("25/1").unwrap();
    assert_eq!((f.num, f.den), (25_000_000, 1_000_000));
}

#[test]
fn frame_rate_needs_positive_denominator() {
    assert!(parse_frame_rate("0/0").is_none());
    assert!(parse_frame_rate("25/-1").is_none());
}

#[test]
fn frame_rate_needs_two_parts() {
    assert!(parse_frame_rate("25").is_none());
    assert!(parse_frame_rate("1/2/3").is_none());
    assert!(parse_frame_rate("a/b").is_none());
}

#[test]
fn video_report_is_summarized() {
    let mut v = stream("video", "h264");
    v.width = Some(1920);
    v.height = Some(1080);
    v.avg_frame_rate = Some("0/0".to_string());
    v.r_frame_rate = Some("30/1".to_string());
    v.duration = Some("9.0".to_string());
    let a = stream("audio", "aac");
    let report = ProbeReport {
        streams: vec![a, v],
        format: Some(ProbeFormat { duration: Some("12.500000".to_string()) }),
    };
    let r = summarize_probe(&report);
    assert_eq!(r.duration, 12_500_000);
    assert_eq!(r.media_type, "video");
    assert_eq!(r.width, Some(1920));
    assert_eq!(r.height, Some(1080));
    assert_eq!(r.codec.as_deref(), Some("h264"));
    let f = r.fps.unwrap();
    assert_eq!((f.num, f.den), (30_000_000, 1_000_000));
    assert!(r.thumbnail.is_none());
}

#[test]
fn duration_falls_back_to_video_stream() {
    let mut v = stream("video", "h264");
    v.duration = Some("3.25".to_string());
    let report = ProbeReport {
        streams: vec![v],
        format: Some(ProbeFormat { duration: Some("N/A".to_string()) }),
    };
    assert_eq!(summarize_probe(&report).duration, 3_250_000);
}

#[test]
fn image_codec_makes_an_image() {
    let report = ProbeReport { streams: vec![stream("video", "png")], format: None };
    let r = summarize_probe(&report);
    assert_eq!(r.media_type, "image");
    assert_eq!(r.duration, 0);
}

#[test]
fn audio_only_report_is_audio() {
    let report = ProbeReport {
        streams: vec![stream("audio", "mp3")],
        format: Some(ProbeFormat { duration: Some("200.1".to_string()) }),
    };
    let r = summarize_probe(&report);
    assert_eq!(r.media_type, "audio");
    assert_eq!(r.codec.as_deref(), Some("mp3"));
    assert!(r.fps.is_none());
    assert!(r.width.is_none());
    assert_eq!(r.duration, 200_100_000);
}

#[test]
fn video_without_codec_takes_audio_codec() {
    let mut v = stream("video", "x");
    v.codec_name = None;
    let report = ProbeReport { streams: vec![v, stream("audio", "opus")], format: None };
    let r = summarize_probe(&report);
    assert_eq!(r.codec.as_deref(), Some("opus"));
    assert_eq!(r.media_type, "video");
}

#[test]
fn empty_report_is_unknown_video() {
    let report = ProbeReport { streams: vec![], format: None };
    let r = summarize_probe(&report);
    assert_eq!(r.duration, 0);
    assert_eq!(r.media_type, "video");
    assert!(r.codec.is_none() && r.width.is_none() && r.height.is_none() && r.fps.is_none());
}

#[test]
fn thumbnail_path_replaces_unsafe_characters() {
    assert_eq!(
        thumbnail_path("/tmp", '/', "/home/u/My Video.mp4"),
        "/tmp/kve_thumb__home_u_My_Video_mp4.jpg"
    );
    assert_eq!(thumbnail_path("/tmp/", '/', "C:\\a.b"), "/tmp/kve_thumb_C__a_b.jpg");
}

#[test]
fn thumbnail_seeks_a_tenth_into_long_media() {
    let args = build_thumbnail_args("/m/a.mp4", 20_000_000, "/tmp/t.jpg");
    assert_eq!(
        args,
        vec![
            "-y", "-ss", "2", "-i", "/m/a.mp4", "-frames:v", "1", "-vf", "scale=320:-2", "-q:v",
            "4", "/tmp/t.jpg"
        ]
    );
    let args = build_thumbnail_args("/m/a.mp4", 10_000_000, "/tmp/t.jpg");
    assert_eq!(args[2], "1");
    let args = build_thumbnail_args("/m/a.mp4", 12_345_670, "/tmp/t.jpg");
    assert_eq!(args[2], "1.234567");
}

#[test]
fn thumbnail_seeks_one_second_into_short_media() {
    assert_eq!(build_thumbnail_args("/m/a.mp4", 5_000_000, "/t.jpg")[2], "1");
    assert_eq!(build_thumbnail_args("/m/a.mp4", 1_000_001, "/t.jpg")[2], "1");
    assert_eq!(build_thumbnail_args("/m/a.mp4", 1_000_000, "/t.jpg")[2], "0");
    assert_eq!(build_thumbnail_args("/m/a.mp4", 0, "/t.jpg")[2], "0");
}

#[test]
fn only_videos_and_images_get_thumbnails() {
    assert!(wants_thumbnail("video"));
    assert!(wants_thumbnail("image"));
    assert!(!wants_thumbnail("audio"));
}

#[test]
fn audio_answer_reads_ffprobe_listing() {
    assert!(has_audio_answer(&Some("audio\n".to_string())));
    assert!(!has_audio_answer(&Some(String::new())));
    assert!(has_audio_answer(&None));
}
