//! What ffprobe's report says about a media file: its kind, length, frame
//! size, codec and frame rate; and the FFmpeg arguments of its thumbnail.

use vstd::prelude::*;
use crate::args::{texts, push_arg, push_owned};
use crate::numfmt::{fixed_text, push_fixed};
use crate::text::{chars_of, push_char, str_eq};
use crate::plan::{work_file, dir_prefix_text};
use crate::timecode::{decimal_micros, first_index, parse_decimal_micros, index_in, find_from, find_pattern};

verus! {

/// One stream of an ffprobe report.
pub struct ProbeStream {
    pub codec_type: Option<String>,
    pub codec_name: Option<String>,
    pub width: Option<u32>,
    pub height: Option<u32>,
    pub avg_frame_rate: Option<String>,
    pub r_frame_rate: Option<String>,
    pub duration: Option<String>,
}

/// The container part of an ffprobe report.
pub struct ProbeFormat {
    pub duration: Option<String>,
}

/// An ffprobe report: its streams and its container.
pub struct ProbeReport {
    pub streams: Vec<ProbeStream>,
    pub format: Option<ProbeFormat>,
}

/// A frame rate as the quotient of two numbers in millionths; the
/// denominator is positive.
pub struct FrameRate {
    pub num: i64,
    pub den: i64,
}

/// What the editor learns of a media file.
pub struct ProbeResult {
    /// Length in microseconds.
    pub duration: i64,
    pub width: Option<u32>,
    pub height: Option<u32>,
    /// `video`, `image` or `audio`.
    pub media_type: String,
    pub codec: Option<String>,
    pub fps: Option<FrameRate>,
    pub thumbnail: Option<String>,
}

/// A frame rate `num/den`: two decimal numbers around one `/`, the second
/// positive; as (numerator, denominator) in millionths.
pub open spec fn frame_rate_of(s: Seq<char>) -> Option<(int, int)> {
    let k = first_index(s, '/');
    if k >= s.len() {
        None
    } else {
        let r = s.skip(k + 1);
        if first_index(r, '/') < r.len() {
            None
        } else {
            match (decimal_micros(s.take(k)), decimal_micros(r)) {
                (Some(n), Some(d)) => if d > 0 {
                    Some((n, d))
                } else {
                    None
                },
                _ => None,
            }
        }
    }
}

/// Reads a frame rate written `num/den`.
pub fn parse_frame_rate(s: &str) -> (r: Option<FrameRate>)
    ensures
        r matches Some(f) ==> frame_rate_of(s@) == Some((f.num as int, f.den as int)),
        r is None ==> frame_rate_of(s@) is None,
{
    let v = chars_of(s);
    let k = index_in(&v, 0, v.len(), '/');
    assert(v@.subrange(0, v@.len() as int) =~= s@);
    if k >= v.len() {
        return None;
    }
    let lo = k + 1;
    assert(s@.skip(k + 1) =~= v@.subrange(lo as int, v@.len() as int));
    let k2 = index_in(&v, lo, v.len(), '/');
    if k2 < v.len() - lo {
        return None;
    }
    assert(s@.take(k as int) =~= v@.subrange(0, k as int));
    let num = parse_decimal_micros(&v, 0, k);
    let den = parse_decimal_micros(&v, lo, v.len());
    match (num, den) {
        (Some(n), Some(d)) => {
            if d > 0 {
                Some(FrameRate { num: n, den: d })
            } else {
                None
            }
        },
        _ => None,
    }
}

/// Whether a stream's type is `ty`.
pub open spec fn is_type(st: ProbeStream, ty: Seq<char>) -> bool {
    st.codec_type matches Some(t) && t@ == ty
}

/// The first stream of type `ty` among `streams[from..]`.
pub open spec fn first_of_type(streams: Seq<ProbeStream>, ty: Seq<char>, from: int) -> Option<int>
    decreases streams.len() - from,
{
    if from < 0 || from >= streams.len() {
        None
    } else if is_type(streams[from], ty) {
        Some(from)
    } else {
        first_of_type(streams, ty, from + 1)
    }
}

/// A duration field read as microseconds, when it is a decimal number.
pub open spec fn duration_of(d: Option<String>) -> Option<int> {
    match d {
        Some(s) => decimal_micros(s@),
        None => None,
    }
}

/// A frame-rate field read, when it is a frame rate.
pub open spec fn rate_of(f: Option<String>) -> Option<(int, int)> {
    match f {
        Some(s) => frame_rate_of(s@),
        None => None,
    }
}

/// Whether a codec names a still-image format.
pub open spec fn is_image_codec(name: Option<String>) -> bool {
    name matches Some(n) && (n@ == "mjpeg"@ || n@ == "png"@ || n@ == "bmp"@ || n@ == "webp"@ || n@
        == "gif"@ || n@ == "tiff"@ || n@ == "jpeg"@ || n@ == "jp2"@)
}

/// The length of a media file: the container's duration, else that of the
/// first video stream, else zero.
pub open spec fn report_duration(r: ProbeReport, video: Option<int>) -> int {
    let from_format = match r.format {
        Some(f) => duration_of(f.duration),
        None => None,
    };
    match from_format {
        Some(d) => d,
        None => match video {
            Some(i) => match duration_of(r.streams@[i].duration) {
                Some(d) => d,
                None => 0,
            },
            None => 0,
        },
    }
}

/// Whether `res` says what the report `r` says of a media file: its
/// length; its kind (`image` for a first video stream with a still-image
/// codec, `video` for another, `audio` with only audio streams, `video`
/// when there is neither); the frame size and rate of the first video
/// stream (its average rate, else its base rate); and the codec of the
/// first video stream, else of the first audio stream. No thumbnail yet.
pub open spec fn summarizes(res: ProbeResult, r: ProbeReport) -> bool {
    let video = first_of_type(r.streams@, "video"@, 0);
    let audio = first_of_type(r.streams@, "audio"@, 0);
    &&& res.duration == report_duration(r, video)
    &&& res.thumbnail is None
    &&& match video {
        Some(i) => {
            let vs = r.streams@[i];
            &&& res.media_type@ == (if is_image_codec(vs.codec_name) { "image"@ } else { "video"@ })
            &&& res.width == vs.width && res.height == vs.height
            &&& match (rate_of(vs.avg_frame_rate), rate_of(vs.r_frame_rate)) {
                (Some(f), _) => res.fps matches Some(x) && (x.num as int, x.den as int) == f,
                (None, Some(f)) => res.fps matches Some(x) && (x.num as int, x.den as int) == f,
                (None, None) => res.fps is None,
            }
        },
        None => {
            &&& res.media_type@ == (if audio is Some { "audio"@ } else { "video"@ })
            &&& res.width is None && res.height is None && res.fps is None
        },
    }
    &&& res.codec == match video {
        Some(i) if r.streams@[i].codec_name is Some => r.streams@[i].codec_name,
        _ => match audio {
            Some(j) => r.streams@[j].codec_name,
            None => None,
        },
    }
}

/// The first stream of type `ty`.
fn find_stream(streams: &Vec<ProbeStream>, ty: &str) -> (r: Option<usize>)
    ensures
        r matches Some(i) ==> first_of_type(streams@, ty@, 0) == Some(i as int) && i < streams@.len(),
        r is None ==> first_of_type(streams@, ty@, 0) is None,
{
    let mut i: usize = 0;
    while i < streams.len()
        invariant
            i <= streams.len(),
            first_of_type(streams@, ty@, 0) == first_of_type(streams@, ty@, i as int),
        decreases streams.len() - i,
    {
        let hit = match &streams[i].codec_type {
            Some(t) => str_eq(t.as_str(), ty),
            None => false,
        };
        if hit {
            return Some(i);
        }
        i = i + 1;
    }
    None
}

/// Reads an optional duration field.
fn read_duration(d: &Option<String>) -> (r: Option<i64>)
    ensures
        r matches Some(x) ==> duration_of(*d) == Some(x as int),
        r is None ==> duration_of(*d) is None,
{
    match d {
        Some(s) => {
            let v = chars_of(s.as_str());
            assert(v@.subrange(0, v@.len() as int) =~= s@);
            parse_decimal_micros(&v, 0, v.len())
        },
        None => None,
    }
}

/// Reads an optional frame-rate field.
fn read_rate(f: &Option<String>) -> (r: Option<FrameRate>)
    ensures
        r matches Some(x) ==> rate_of(*f) == Some((x.num as int, x.den as int)),
        r is None ==> rate_of(*f) is None,
{
    match f {
        Some(s) => parse_frame_rate(s.as_str()),
        None => None,
    }
}

/// Whether a codec names a still-image format.
fn image_codec(name: &Option<String>) -> (r: bool)
    ensures
        r == is_image_codec(*name),
{
    match name {
        Some(n) => {
            let n = n.as_str();
            str_eq(n, "mjpeg") || str_eq(n, "png") || str_eq(n, "bmp") || str_eq(n, "webp")
                || str_eq(n, "gif") || str_eq(n, "tiff") || str_eq(n, "jpeg") || str_eq(n, "jp2")
        },
        None => false,
    }
}

/// A copy of an optional text.
fn copy_text(t: &Option<String>) -> (r: Option<String>)
    ensures
        r == *t,
{
    match t {
        Some(s) => Some(s.clone()),
        None => None,
    }
}

/// What an ffprobe report says of a media file.
pub fn summarize_probe(r: &ProbeReport) -> (res: ProbeResult)
    ensures
        summarizes(res, *r),
{
    let video = find_stream(&r.streams, "video");
    let audio = find_stream(&r.streams, "audio");
    let from_format = match &r.format {
        Some(f) => read_duration(&f.duration),
        None => None,
    };
    let duration = match from_format {
        Some(d) => d,
        None => match video {
            Some(i) => match read_duration(&r.streams[i].duration) {
                Some(d) => d,
                None => 0,
            },
            None => 0,
        },
    };
    let (media_type, width, height, fps) = match video {
        Some(i) => {
            let vs = &r.streams[i];
            let t = if image_codec(&vs.codec_name) {
                String::from_str("image")
            } else {
                String::from_str("video")
            };
            let f = match read_rate(&vs.avg_frame_rate) {
                Some(f) => Some(f),
                None => read_rate(&vs.r_frame_rate),
            };
            (t, vs.width, vs.height, f)
        },
        None => {
            let t = if audio.is_some() {
                String::from_str("audio")
            } else {
                String::from_str("video")
            };
            (t, None, None, None)
        },
    };
    let from_video = match video {
        Some(i) => copy_text(&r.streams[i].codec_name),
        None => None,
    };
    let codec = match from_video {
        Some(c) => Some(c),
        None => match audio {
            Some(j) => copy_text(&r.streams[j].codec_name),
            None => None,
        },
    };
    ProbeResult { duration, width, height, media_type, codec, fps, thumbnail: None }
}

/// A report with no stream and no container says: a video of length zero,
/// nothing else known.
pub proof fn lemma_empty_report(r: ProbeReport, res: ProbeResult)
    requires
        r.streams@.len() == 0,
        r.format is None,
        summarizes(res, r),
    ensures
        res.duration == 0,
        res.media_type@ == "video"@,
        res.width is None && res.height is None && res.codec is None && res.fps is None,
        res.thumbnail is None,
{
}


/// Whether a character of a media path becomes `_` in its thumbnail's
/// name: `/`, `\`, `:`, space and `.`.
pub open spec fn is_name_unsafe(c: char) -> bool {
    c == '/' || c == '\\' || c == ':' || c == ' ' || c == '.'
}

/// A character of a media path as it stands in its thumbnail's name.
pub open spec fn name_char(c: char) -> char {
    if is_name_unsafe(c) { '_' } else { c }
}

/// The file name of the thumbnail of the media at `path`.
pub open spec fn thumbnail_name(path: Seq<char>) -> Seq<char> {
    "kve_thumb_"@ + path.map_values(|c: char| name_char(c)) + ".jpg"@
}

/// Where the thumbnail is taken, in microseconds: a tenth into a media
/// longer than ten seconds, one second into a media longer than one
/// second, else its start.
pub open spec fn thumbnail_seek(duration: int) -> int {
    if duration > 10_000_000 {
        duration / 10
    } else if duration > 1_000_000 {
        1_000_000
    } else {
        0
    }
}

/// The FFmpeg arguments that write one frame of the media at `path`,
/// scaled to 320 pixels wide, to the image `out`.
pub open spec fn thumbnail_args(path: Seq<char>, duration: int, out: Seq<char>) -> Seq<Seq<char>> {
    seq![
        "-y"@,
        "-ss"@,
        fixed_text(thumbnail_seek(duration)),
        "-i"@,
        path,
        "-frames:v"@,
        "1"@,
        "-vf"@,
        "scale=320:-2"@,
        "-q:v"@,
        "4"@,
        out,
    ]
}

/// Where the thumbnail of the media at `path` is written: in the directory
/// `tmp_dir`, whose separator is `sep`.
pub fn thumbnail_path(tmp_dir: &str, sep: char, path: &str) -> (r: String)
    ensures
        r@ == work_file(tmp_dir@, sep, thumbnail_name(path@)),
{
    let mut s = dir_prefix_text(tmp_dir, sep);
    s.append("kve_thumb_");
    let ghost mid = s@;
    let v = chars_of(path);
    let mut i: usize = 0;
    while i < v.len()
        invariant
            v@ == path@,
            i <= v.len(),
            s@ == mid + v@.take(i as int).map_values(|c: char| name_char(c)),
        decreases v.len() - i,
    {
        let c = v[i];
        let safe = if c == '/' || c == '\\' || c == ':' || c == ' ' || c == '.' { '_' } else { c };
        push_char(&mut s, safe);
        assert(v@.take(i + 1).map_values(|c: char| name_char(c)) =~= v@.take(i as int).map_values(|c: char| name_char(c)).push(name_char(c)));
        i = i + 1;
    }
    assert(v@.take(i as int) =~= path@);
    s.append(".jpg");
    assert(s@ =~= work_file(tmp_dir@, sep, thumbnail_name(path@)));
    s
}

/// The FFmpeg arguments of the thumbnail of the media at `path`, which is
/// `duration` microseconds long, written to `out`.
pub fn build_thumbnail_args(path: &str, duration: i64, out: &str) -> (r: Vec<String>)
    ensures
        texts(r@) == thumbnail_args(path@, duration as int, out@),
{
    let seek: i64 = if duration > 10_000_000 {
        duration / 10
    } else if duration > 1_000_000 {
        1_000_000
    } else {
        0
    };
    let mut a: Vec<String> = Vec::new();
    push_arg(&mut a, "-y");
    push_arg(&mut a, "-ss");
    let mut t = String::new();
    push_fixed(&mut t, seek);
    push_owned(&mut a, t);
    push_arg(&mut a, "-i");
    push_arg(&mut a, path);
    push_arg(&mut a, "-frames:v");
    push_arg(&mut a, "1");
    push_arg(&mut a, "-vf");
    push_arg(&mut a, "scale=320:-2");
    push_arg(&mut a, "-q:v");
    push_arg(&mut a, "4");
    push_arg(&mut a, out);
    assert(texts(a@) =~= thumbnail_args(path@, duration as int, out@));
    a
}

/// Whether a media of this kind gets a thumbnail: videos and images do.
pub fn wants_thumbnail(media_type: &str) -> (r: bool)
    ensures
        r == (media_type@ == "video"@ || media_type@ == "image"@),
{
    str_eq(media_type, "video") || str_eq(media_type, "image")
}


/// Whether a file is taken to have sound, from what ffprobe printed of its
/// audio streams: it mentions `audio`. When ffprobe could not be found or
/// run (`output` is `None`), the file is taken to have sound.
pub open spec fn reports_audio(output: Option<Seq<char>>) -> bool {
    match output {
        Some(o) => find_from(o, "audio"@, 0) < o.len(),
        None => true,
    }
}

/// Whether a file is taken to have sound, from ffprobe's listing of its
/// audio streams.
pub fn has_audio_answer(output: &Option<String>) -> (r: bool)
    ensures
        r == reports_audio(match output {
            Some(o) => Some(o@),
            None => None,
        }),
{
    match output {
        Some(o) => {
            let v = chars_of(o.as_str());
            let p = chars_of("audio");
            let m = find_pattern(&v, &p, 0);
            m < v.len()
        },
        None => true,
    }
}

/// A media file whose first video stream is coded as a still image
/// (`mjpeg`, `png`, `bmp`, `webp`, `gif`, `tiff`, `jpeg` or `jp2`) is an
/// image; with any other codec, or none, it is a video.
pub proof fn lemma_still_image_codecs(res: ProbeResult, r: ProbeReport, i: int)
    requires
        summarizes(res, r),
        first_of_type(r.streams@, "video"@, 0) == Some(i),
    ensures
        (r.streams@[i].codec_name matches Some(n) && (n@ == "mjpeg"@ || n@ == "png"@ || n@ == "bmp"@
            || n@ == "webp"@ || n@ == "gif"@ || n@ == "tiff"@ || n@ == "jpeg"@ || n@ == "jp2"@))
            ==> res.media_type@ == "image"@,
        !(r.streams@[i].codec_name matches Some(n) && (n@ == "mjpeg"@ || n@ == "png"@ || n@ == "bmp"@
            || n@ == "webp"@ || n@ == "gif"@ || n@ == "tiff"@ || n@ == "jpeg"@ || n@ == "jp2"@))
            ==> res.media_type@ == "video"@,
{
}

} // verus!
