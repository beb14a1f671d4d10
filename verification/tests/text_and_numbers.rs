use kantan_video_edit::clipcmd::font_size_px;
use kantan_video_edit::numfmt::{fmt_dur, fmt_fixed, push_millis, u64_text};
use kantan_video_edit::text::{escape_drawtext, str_eq};
use kantan_video_edit::timecode::{parse_decimal_micros, parse_ffmpeg_time};

#[test]
fn escape_drawtext_escapes_special_characters() {
    assert_eq!(escape_drawtext("a:b\\c%d"), "a\\:b\\\\c\\%d");
    assert_eq!(escape_drawtext("plain text"), "plain text");
    assert_eq!(escape_drawtext(""), "");
    assert_eq!(escape_drawtext("100%"), "100\\%");
}

#[test]
fn escape_drawtext_keeps_other_unicode() {
    assert_eq!(escape_drawtext("日本語: テスト"), "日本語\\: テスト");
}

#[test]
fn fmt_dur_prints_six_decimals() {
    assert_eq!(fmt_dur(1_500_000), "1.500000");
    assert_eq!(fmt_dur(0), "0.000000");
    assert_eq!(fmt_dur(12_345_678), "12.345678");
    assert_eq!(fmt_dur(50_000), "0.050000");
}

#[test]
fn fmt_dur_prints_negative_as_zero() {
    assert_eq!(fmt_dur(-5), "0.000000");
    assert_eq!(fmt_dur(-3_000_000), "0.000000");
}

#[test]
fn fmt_fixed_prints_shortest_decimal() {
    assert_eq!(fmt_fixed(1_000_000), "1");
    assert_eq!(fmt_fixed(1_500_000), "1.5");
    assert_eq!(fmt_fixed(-250_000), "-0.25");
    assert_eq!(fmt_fixed(0), "0");
    assert_eq!(fmt_fixed(123_456), "0.123456");
    assert_eq!(fmt_fixed(-3_000_000), "-3");
}

#[test]
fn u64_text_prints_decimal() {
    assert_eq!(u64_text(0), "0");
    assert_eq!(u64_text(1920), "1920");
    assert_eq!(u64_text(u64::MAX), "18446744073709551615");
}

#[test]
fn str_eq_compares_characters() {
    assert!(str_eq("video", "video"));
    assert!(!str_eq("video", "audio"));
    assert!(!str_eq("vid", "video"));
}

#[test]
fn font_size_rounds_half_away_from_zero() {
    assert_eq!(font_size_px(1080, 50_000), 54);
    assert_eq!(font_size_px(1000, 500), 1);
    assert_eq!(font_size_px(1000, 499), 0);
    assert_eq!(font_size_px(1080, -50_000), 0);
}

#[test]
fn parse_ffmpeg_time_reads_clock() {
    let line = "frame=  10 fps=0.0 q=0.0 size=       0kB time=00:01:02.50 bitrate=N/A speed=N/A";
    assert_eq!(parse_ffmpeg_time(line), Some(62_500_000));
    assert_eq!(parse_ffmpeg_time("time=01:00:00.00"), Some(3_600_000_000));
}

#[test]
fn parse_ffmpeg_time_reads_plain_seconds() {
    assert_eq!(parse_ffmpeg_time("time=12.5 x"), Some(12_500_000));
    assert_eq!(parse_ffmpeg_time("time=   7"), Some(7_000_000));
}

#[test]
fn parse_ffmpeg_time_rejects_other_lines() {
    assert_eq!(parse_ffmpeg_time("time=N/A bitrate=N/A"), None);
    assert_eq!(parse_ffmpeg_time("no timestamp here"), None);
    assert_eq!(parse_ffmpeg_time("time=1:2"), None);
    assert_eq!(parse_ffmpeg_time("time=1:2:3:4"), None);
    assert_eq!(parse_ffmpeg_time("time="), None);
}

#[test]
fn parse_ffmpeg_time_reads_fmt_dur_output() {
    let text = format!("time={}", fmt_dur(4_250_000));
    assert_eq!(parse_ffmpeg_time(&text), Some(4_250_000));
}

#[test]
fn parse_ffmpeg_time_signs_apply_per_part() {
    assert_eq!(parse_ffmpeg_time("time=-00:00:01.00"), Some(1_000_000));
    assert_eq!(parse_ffmpeg_time("time=-1.5"), Some(-1_500_000));
}

fn read(s: &str) -> Option<i64> {
    let v: Vec<char> = s.chars().collect();
    parse_decimal_micros(&v, 0, v.len())
}

#[test]
fn decimal_reader_reads_exponents() {
    assert_eq!(read("1e3"), Some(1_000_000_000));
    assert_eq!(read("1.5E-2"), Some(15_000));
    assert_eq!(read("-2.5e1"), Some(-25_000_000));
    assert_eq!(read("1e+2"), Some(100_000_000));
    assert_eq!(read(".5e1"), Some(5_000_000));
    assert_eq!(read("1e-7"), Some(0));
    assert_eq!(read("0e999999999999999999999999"), Some(0));
    assert_eq!(read("1e-999999999999999999999999"), Some(0));
}

#[test]
fn decimal_reader_refuses_bad_exponents() {
    assert_eq!(read("1e10"), None);
    assert_eq!(read("1e999999999999999999999999"), None);
    assert_eq!(read("5e"), None);
    assert_eq!(read("e5"), None);
    assert_eq!(read("1e2.5"), None);
    assert_eq!(read("1.2.3e1"), None);
    assert_eq!(read("12.5"), Some(12_500_000));
}

#[test]
fn progress_line_reads_clock_after_other_fields() {
    let line = "frame=1 fps=25 time=01:02:03.5 bitrate=1kbits/s";
    assert_eq!(parse_ffmpeg_time(line), Some(3_723_500_000));
}

fn millis(us: i64) -> String {
    let mut s = String::new();
    push_millis(&mut s, us);
    s
}

#[test]
fn millis_round_as_the_nearest_double_prints() {
    assert_eq!(millis(0), "0.000");
    assert_eq!(millis(5_000_000), "5.000");
    assert_eq!(millis(1_234_567), "1.235");
    // Exact binary ties go to the even digit.
    assert_eq!(millis(62_500), "0.062");
    assert_eq!(millis(187_500), "0.188");
    assert_eq!(millis(-62_500), "-0.062");
    // Decimal ties that are not exact doubles follow the double.
    assert_eq!(millis(1_500), "0.002");
    assert_eq!(millis(1_000_500), "1.000");
    assert_eq!(millis(2_002_500), "2.002");
    assert_eq!(millis(12_345_678_500), "12345.678");
    assert_eq!(millis(999_999_999_500), "1000000.000");
}
