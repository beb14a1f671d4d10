use kantan_video_edit::ffmpeg::{
    ffmpeg_candidates, ffmpeg_info, ffprobe_candidates, first_existing, frontend_log_level,
    replace_text, reveal_in_folder_command, sibling_path, version_line, LogLevel, Platform,
};

#[test]
fn version_line_is_first_line() {
    assert_eq!(version_line("ffmpeg version 6.0 Copyright\nbuilt with gcc"), "ffmpeg version 6.0 Copyright");
    assert_eq!(version_line(""), "ffmpeg");
    assert_eq!(version_line("a\r\nb"), "a");
    assert_eq!(version_line("a\r"), "a\r");
    assert_eq!(version_line("\nsecond"), "");
}

#[test]
fn info_of_found_and_missing_ffmpeg() {
    let i = ffmpeg_info(Some("/usr/bin/ffmpeg".to_string()), Some("ffmpeg version 7\nx".to_string()));
    assert!(i.available);
    assert_eq!(i.version, "ffmpeg version 7");
    assert_eq!(i.path, "/usr/bin/ffmpeg");
    let i = ffmpeg_info(Some("/usr/bin/ffmpeg".to_string()), None);
    assert_eq!(i.version, "ffmpeg");
    let i = ffmpeg_info(None, None);
    assert!(!i.available);
    assert_eq!(i.version, "");
    assert_eq!(i.path, "");
}

#[test]
fn ffmpeg_places_in_order() {
    let c = ffmpeg_candidates(&None, &Some("/res".to_string()), &Some("/opt/app".to_string()), false, '/');
    assert_eq!(c, vec!["/res/ffmpeg", "/res/bin/ffmpeg", "/opt/app/ffmpeg"]);
    let c = ffmpeg_candidates(&Some("/x/ff".to_string()), &None, &Some("C:\\kve".to_string()), true, '\\');
    assert_eq!(c, vec!["/x/ff", "C:\\kve\\ffmpeg.exe"]);
}

#[test]
fn ffprobe_places_in_order() {
    let c = ffprobe_candidates(&None, &Some("/usr/bin/ffmpeg".to_string()), false, '/');
    assert_eq!(c, vec!["/usr/bin/ffprobe", "/usr/bin/ffprobe"]);
    let c = ffprobe_candidates(&None, &Some("/opt/ffmpeg/..".to_string()), false, '/');
    assert_eq!(c, vec!["/opt/ffprobe/.."]);
    let c = ffprobe_candidates(&Some("/p".to_string()), &None, false, '/');
    assert_eq!(c, vec!["/p"]);
}

#[test]
fn first_existing_place_wins() {
    assert_eq!(first_existing(&vec![false, true, true]), Some(1));
    assert_eq!(first_existing(&vec![false, false]), None);
}

#[test]
fn replace_text_replaces_every_match() {
    assert_eq!(replace_text("ffmpeg/ffmpeg-6", "ffmpeg", "ffprobe"), "ffprobe/ffprobe-6");
    assert_eq!(replace_text("aaa", "aa", "b"), "ba");
    assert_eq!(replace_text("none", "ffmpeg", "ffprobe"), "none");
}

#[test]
fn sibling_path_replaces_file_name() {
    let some = |s: &str| Some(s.to_string());
    assert_eq!(sibling_path("/opt/bin/ffmpeg", '/', "ffprobe"), some("/opt/bin/ffprobe"));
    assert_eq!(sibling_path("ffmpeg", '/', "ffprobe"), some("ffprobe"));
    assert_eq!(sibling_path("/ffmpeg", '/', "ffprobe"), some("/ffprobe"));
    assert_eq!(sibling_path("/opt/bin/", '/', "ffprobe"), some("/opt/ffprobe"));
    assert_eq!(sibling_path("/opt//bin/./", '/', "ffprobe"), some("/opt/ffprobe"));
    assert_eq!(sibling_path("C:\\ff\\ffmpeg.exe", '\\', "ffprobe.exe"), some("C:\\ff\\ffprobe.exe"));
}

#[test]
fn sibling_path_keeps_a_drive_prefix() {
    let some = |s: &str| Some(s.to_string());
    assert_eq!(sibling_path("C:ffmpeg.exe", '\\', "ffprobe.exe"), some("C:ffprobe.exe"));
    assert_eq!(sibling_path("C:\\ffmpeg.exe", '\\', "ffprobe.exe"), some("C:\\ffprobe.exe"));
    assert_eq!(sibling_path("C:", '\\', "ffprobe.exe"), None);
    assert_eq!(sibling_path("C:..", '\\', "ffprobe.exe"), None);
    assert_eq!(sibling_path("C:ffmpeg", '/', "ffprobe"), some("ffprobe"));
}

#[test]
fn sibling_path_needs_a_file_name() {
    assert_eq!(sibling_path("/opt/..", '/', "ffprobe"), None);
    assert_eq!(sibling_path("/", '/', "ffprobe"), None);
    assert_eq!(sibling_path("", '/', "ffprobe"), None);
    assert_eq!(sibling_path(".", '/', "ffprobe"), None);
}

#[test]
fn reveal_commands_by_platform() {
    let (p, a) = reveal_in_folder_command(&Platform::Windows, "C:\\v.mp4", false, &None);
    assert_eq!(p, "explorer");
    assert_eq!(a, vec!["/select,", "C:\\v.mp4"]);
    let (p, a) = reveal_in_folder_command(&Platform::MacOs, "/v.mp4", false, &None);
    assert_eq!(p, "open");
    assert_eq!(a, vec!["-R", "/v.mp4"]);
    let (p, a) = reveal_in_folder_command(&Platform::Linux, "/a/v.mp4", false, &Some("/a".to_string()));
    assert_eq!(p, "xdg-open");
    assert_eq!(a, vec!["/a"]);
    let (_, a) = reveal_in_folder_command(&Platform::Linux, "/a", true, &Some("/".to_string()));
    assert_eq!(a, vec!["/a"]);
}

#[test]
fn log_levels_from_names() {
    assert!(matches!(frontend_log_level("error"), LogLevel::Error));
    assert!(matches!(frontend_log_level("warn"), LogLevel::Warn));
    assert!(matches!(frontend_log_level("info"), LogLevel::Info));
    assert!(matches!(frontend_log_level("trace"), LogLevel::Debug));
}
