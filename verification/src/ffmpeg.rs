//! Finding the FFmpeg tools and describing them: where to look for the
//! executables, which found file wins, the version line, and the command
//! that shows a file in the desktop's file manager.

use vstd::prelude::*;
use crate::args::{texts, push_arg, push_owned};
use crate::plan::{work_file, dir_prefix_text};
use crate::text::{chars_of, push_char, str_eq};
use crate::timecode::{first_index, find_from, index_in, lemma_find_from_bound, find_pattern};

verus! {

/// Whether FFmpeg was found, its version line and its path.
pub struct FfmpegInfo {
    pub available: bool,
    pub version: String,
    pub path: String,
}

/// The operating system the editor runs on.
pub enum Platform {
    Windows,
    MacOs,
    Linux,
}

/// The first line of a tool's output (`lines().next()`): up to the first
/// line feed, without the carriage return before it; `ffmpeg` when the
/// output is empty.
pub open spec fn first_line(t: Seq<char>) -> Seq<char> {
    if t.len() == 0 {
        "ffmpeg"@
    } else {
        let k = first_index(t, '\n');
        let l = t.take(k);
        if k < t.len() && l.len() > 0 && l.last() == '\r' {
            l.drop_last()
        } else {
            l
        }
    }
}

/// The first line of a tool's output, `ffmpeg` when there is none.
pub fn version_line(output: &str) -> (r: String)
    ensures
        r@ == first_line(output@),
{
    let v = chars_of(output);
    if v.len() == 0 {
        return String::from_str("ffmpeg");
    }
    let k = index_in(&v, 0, v.len(), '\n');
    assert(v@.subrange(0, v@.len() as int) =~= output@);
    let end = if k < v.len() && k > 0 && v[k - 1] == '\r' { k - 1 } else { k };
    let mut s = String::new();
    let mut i: usize = 0;
    while i < end
        invariant
            end <= v@.len(),
            i <= end,
            s@ == v@.take(i as int),
        decreases end - i,
    {
        push_char(&mut s, v[i]);
        assert(v@.take(i + 1) =~= v@.take(i as int).push(v@[i as int]));
        i = i + 1;
    }
    assert(s@ =~= first_line(output@));
    s
}

/// A version line is one line: it holds no line feed.
pub proof fn lemma_version_line_single(t: Seq<char>)
    ensures
        !first_line(t).contains('\n'),
{
    reveal_strlit("ffmpeg");
    if t.len() > 0 {
        let k = first_index(t, '\n');
        crate::timecode::lemma_first_index_props(t, '\n');
        let l = t.take(k);
        assert forall|i: int| 0 <= i < first_line(t).len() implies first_line(t)[i] != '\n' by {
            assert(first_line(t)[i] == l[i]);
            assert(l[i] == t[i]);
        }
    }
}

/// What the editor reports of FFmpeg: found at `path` or not, and the first
/// line of what `ffmpeg -version` printed (`ffmpeg` when it could not be
/// run, `output` being `None`).
pub fn ffmpeg_info(path: Option<String>, output: Option<String>) -> (r: FfmpegInfo)
    ensures
        match path {
            Some(p) => r.available && r.path@ == p@ && r.version@ == match output {
                Some(o) => first_line(o@),
                None => "ffmpeg"@,
            },
            None => !r.available && r.path@.len() == 0 && r.version@.len() == 0,
        },
{
    match path {
        Some(p) => {
            let version = match output {
                Some(o) => version_line(o.as_str()),
                None => String::from_str("ffmpeg"),
            };
            FfmpegInfo { available: true, version, path: p }
        },
        None => FfmpegInfo { available: false, version: String::new(), path: String::new() },
    }
}

/// The file name of a tool on the platform: `.exe` added on Windows.
pub open spec fn tool_file(name: Seq<char>, windows: bool) -> Seq<char> {
    if windows { name + ".exe"@ } else { name }
}

/// The places where FFmpeg is looked for, in order: the path in the
/// override variable, the bundled copy in the resource directory and in
/// its `bin` directory, and the copy next to the executable.
pub open spec fn ffmpeg_places(
    env_path: Option<Seq<char>>,
    resource_dir: Option<Seq<char>>,
    exe_dir: Option<Seq<char>>,
    windows: bool,
    sep: char,
) -> Seq<Seq<char>> {
    (match env_path {
        Some(e) => seq![e],
        None => seq![],
    }) + (match resource_dir {
        Some(d) => seq![
            work_file(d, sep, tool_file("ffmpeg"@, windows)),
            work_file(d, sep, tool_file("bin/ffmpeg"@, windows)),
        ],
        None => seq![],
    }) + (match exe_dir {
        Some(d) => seq![work_file(d, sep, tool_file("ffmpeg"@, windows))],
        None => seq![],
    })
}

/// The view of an optional text.
pub open spec fn opt_view(o: Option<String>) -> Option<Seq<char>> {
    match o {
        Some(s) => Some(s@),
        None => None,
    }
}

/// The tool's file name on the platform.
fn tool_name(name: &str, windows: bool) -> (r: String)
    ensures
        r@ == tool_file(name@, windows),
{
    let mut s = String::from_str(name);
    if windows {
        s.append(".exe");
    }
    s
}

/// The file `name` in the directory `dir`.
fn file_in(dir: &str, sep: char, name: &str) -> (r: String)
    ensures
        r@ == work_file(dir@, sep, name@),
{
    let mut s = dir_prefix_text(dir, sep);
    s.append(name);
    s
}

/// The places where FFmpeg is looked for, in order of preference; the
/// first that exists is taken, and the search path after them all.
pub fn ffmpeg_candidates(
    env_path: &Option<String>,
    resource_dir: &Option<String>,
    exe_dir: &Option<String>,
    windows: bool,
    sep: char,
) -> (r: Vec<String>)
    ensures
        texts(r@) == ffmpeg_places(opt_view(*env_path), opt_view(*resource_dir), opt_view(*exe_dir), windows, sep),
{
    let mut r: Vec<String> = Vec::new();
    match env_path {
        Some(e) => push_arg(&mut r, e.as_str()),
        None => {},
    }
    match resource_dir {
        Some(d) => {
            let n1 = tool_name("ffmpeg", windows);
            push_owned(&mut r, file_in(d.as_str(), sep, n1.as_str()));
            let n2 = tool_name("bin/ffmpeg", windows);
            push_owned(&mut r, file_in(d.as_str(), sep, n2.as_str()));
        },
        None => {},
    }
    match exe_dir {
        Some(d) => {
            let n = tool_name("ffmpeg", windows);
            push_owned(&mut r, file_in(d.as_str(), sep, n.as_str()));
        },
        None => {},
    }
    assert(texts(r@) =~= ffmpeg_places(opt_view(*env_path), opt_view(*resource_dir), opt_view(*exe_dir), windows, sep));
    r
}

/// The first place that exists, when one does.
pub open spec fn first_true(exists: Seq<bool>, from: int) -> Option<int>
    decreases exists.len() - from,
{
    if from < 0 || from >= exists.len() {
        None
    } else if exists[from] {
        Some(from)
    } else {
        first_true(exists, from + 1)
    }
}

/// Which of the places, checked in order, is taken: the first that exists.
pub fn first_existing(exists: &Vec<bool>) -> (r: Option<usize>)
    ensures
        r matches Some(i) ==> first_true(exists@, 0) == Some(i as int),
        r is None ==> first_true(exists@, 0) is None,
{
    let mut i: usize = 0;
    while i < exists.len()
        invariant
            i <= exists.len(),
            first_true(exists@, 0) == first_true(exists@, i as int),
        decreases exists.len() - i,
    {
        if exists[i] {
            return Some(i);
        }
        i = i + 1;
    }
    None
}

/// `s` with every `pat`, from left to right and without overlap, replaced
/// by `rep`.
pub open spec fn replace_all(s: Seq<char>, pat: Seq<char>, rep: Seq<char>) -> Seq<char>
    decreases s.len(),
{
    let m = find_from(s, pat, 0);
    if pat.len() == 0 || m >= s.len() || m < 0 {
        s
    } else {
        proof {
            lemma_find_from_bound(s, pat, 0);
        }
        s.take(m) + rep + replace_all(s.skip(m + pat.len()), pat, rep)
    }
}

/// Whether `c` separates path components: `/`, or the platform's `sep`.
pub open spec fn is_separator(c: char, sep: char) -> bool {
    c == '/' || c == sep
}

/// The length of the first `n` characters of `path` once trailing
/// separators and trailing `.` components are dropped; a path of one
/// character keeps it.
pub open spec fn trimmed_len(path: Seq<char>, sep: char, n: int) -> int
    decreases n,
{
    if 2 <= n <= path.len() && (is_separator(path[n - 1], sep) || (path[n - 1] == '.'
        && is_separator(path[n - 2], sep))) {
        trimmed_len(path, sep, n - 1)
    } else {
        n
    }
}

/// Whether `c` is an ASCII letter.
pub open spec fn is_ascii_letter(c: char) -> bool {
    (65 <= c as u32 <= 90) || (97 <= c as u32 <= 122)
}

/// The length of the drive prefix (a letter and `:`, as in `C:`) that
/// starts a Windows path (one whose separator `sep` is `\`); zero when
/// there is none.
pub open spec fn drive_len(path: Seq<char>, sep: char) -> int {
    if sep == '\\' && path.len() >= 2 && path[1] == ':' && is_ascii_letter(path[0]) {
        2
    } else {
        0
    }
}

/// Where the last component of the first `n` characters of `path` starts:
/// after the last separator, else after the drive prefix.
pub open spec fn name_start(path: Seq<char>, sep: char, n: int) -> int {
    match last_separator(path, sep, n) {
        Some(k) => k + 1,
        None => drive_len(path, sep),
    }
}

/// The file name of `path` (`Path::file_name`): its last component, unless
/// that is empty, `.` or `..`.
pub open spec fn file_name_of(path: Seq<char>, sep: char) -> Option<Seq<char>> {
    let n = trimmed_len(path, sep, path.len() as int);
    let c = path.subrange(name_start(path, sep, n), n);
    if c.len() == 0 || c == "."@ || c == ".."@ {
        None
    } else {
        Some(c)
    }
}

/// The path that holds the last component of `path` (`Path::parent`):
/// up to its last separator, else its drive prefix (empty when there is
/// none).
pub open spec fn parent_of(path: Seq<char>, sep: char) -> Seq<char> {
    let n = trimmed_len(path, sep, path.len() as int);
    match last_separator(path, sep, n) {
        Some(k) => path.take(trimmed_len(path, sep, k + 1)),
        None => path.take(drive_len(path, sep)),
    }
}

/// The file `name` beside `path` (`Path::with_file_name`): the last
/// component of `path` replaced by `name`, after a separator unless the
/// parent is empty, ends with a separator, or is a bare drive prefix
/// (`C:name`); none when `path` has no file name.
pub open spec fn sibling_file(path: Seq<char>, sep: char, name: Seq<char>) -> Option<Seq<char>> {
    match file_name_of(path, sep) {
        Some(_) => Some(
            match last_separator(path, sep, trimmed_len(path, sep, path.len() as int)) {
                Some(_) => work_file(parent_of(path, sep), sep, name),
                None => parent_of(path, sep) + name,
            },
        ),
        None => None,
    }
}

/// Trailing separators and `.` components are never trimmed into a drive
/// prefix.
proof fn lemma_trimmed_keeps_drive(path: Seq<char>, sep: char, n: int)
    requires
        2 <= n <= path.len(),
        path[1] == ':',
        sep == '\\',
    ensures
        trimmed_len(path, sep, n) >= 2,
    decreases n,
{
    if n > 2 {
        lemma_trimmed_keeps_drive(path, sep, n - 1);
    }
}

/// Where the last separator (`/` or `sep`) before `n` stands in `path`.
pub open spec fn last_separator(path: Seq<char>, sep: char, n: int) -> Option<int>
    decreases n,
{
    if n <= 0 || n > path.len() {
        None
    } else if path[n - 1] == '/' || path[n - 1] == sep {
        Some(n - 1)
    } else {
        last_separator(path, sep, n - 1)
    }
}

/// The places where ffprobe is looked for, in order: the path in the
/// override variable; then, when FFmpeg was found at `ffmpeg`, the ffprobe
/// beside it and the path of FFmpeg with every `ffmpeg` read as `ffprobe`.
pub open spec fn ffprobe_places(
    env_path: Option<Seq<char>>,
    ffmpeg: Option<Seq<char>>,
    windows: bool,
    sep: char,
) -> Seq<Seq<char>> {
    (match env_path {
        Some(e) => seq![e],
        None => seq![],
    }) + (match ffmpeg {
        Some(f) => (match sibling_file(f, sep, tool_file("ffprobe"@, windows)) {
            Some(b) => seq![b],
            None => seq![],
        }) + seq![replace_all(f, "ffmpeg"@, "ffprobe"@)],
        None => seq![],
    })
}


/// Searching a suffix is searching the whole from where the suffix starts.
proof fn lemma_find_from_skip(s: Seq<char>, pat: Seq<char>, a: int, j: int)
    requires
        0 <= a <= s.len(),
        0 <= j,
        pat.len() > 0,
    ensures
        find_from(s.skip(a), pat, j) + a == find_from(s, pat, a + j),
    decreases s.len() - a - j,
{
    let t = s.skip(a);
    if j >= t.len() || j + pat.len() > t.len() {
    } else {
        assert(t.subrange(j, j + pat.len()) =~= s.subrange(a + j, a + j + pat.len()));
        if t.subrange(j, j + pat.len()) != pat {
            lemma_find_from_skip(s, pat, a, j + 1);
        }
    }
}

/// Appends the characters `v[lo..hi]` to `s`.
fn push_range(s: &mut String, v: &Vec<char>, lo: usize, hi: usize)
    requires
        lo <= hi <= v@.len(),
    ensures
        final(s)@ == old(s)@ + v@.subrange(lo as int, hi as int),
{
    let ghost start = s@;
    let mut i = lo;
    while i < hi
        invariant
            lo <= i <= hi <= v@.len(),
            s@ == start + v@.subrange(lo as int, i as int),
        decreases hi - i,
    {
        push_char(s, v[i]);
        assert(v@.subrange(lo as int, i + 1) =~= v@.subrange(lo as int, i as int).push(v@[i as int]));
        i = i + 1;
    }
}

/// `s` with every `pat`, from left to right, replaced by `rep`
/// (`str::replace`).
pub fn replace_text(s: &str, pat: &str, rep: &str) -> (r: String)
    ensures
        r@ == replace_all(s@, pat@, rep@),
{
    let v = chars_of(s);
    let p = chars_of(pat);
    if p.len() == 0 {
        return String::from_str(s);
    }
    let mut out = String::new();
    let mut pos: usize = 0;
    assert(v@.skip(0) =~= v@);
    while pos < v.len()
        invariant
            v@ == s@,
            p@ == pat@,
            p@.len() > 0,
            pos <= v@.len(),
            out@ + replace_all(v@.skip(pos as int), pat@, rep@) == replace_all(s@, pat@, rep@),
        decreases v.len() - pos,
    {
        let m = find_pattern(&v, &p, pos);
        proof {
            lemma_find_from_skip(v@, pat@, pos as int, 0);
            lemma_find_from_bound(v@, pat@, pos as int);
        }
        let ghost t = v@.skip(pos as int);
        if m >= v.len() {
            let ghost before = out@;
            push_range(&mut out, &v, pos, v.len());
            assert(v@.subrange(pos as int, v@.len() as int) =~= t);
            assert(out@ == before + t);
            assert(v@.skip(v@.len() as int) =~= Seq::<char>::empty());
            assert(replace_all(Seq::<char>::empty(), pat@, rep@) =~= Seq::<char>::empty());
            pos = v.len();
        } else {
            let ghost before = out@;
            let k = m - pos;
            push_range(&mut out, &v, pos, m);
            out.append(rep);
            assert(t.take(k as int) =~= v@.subrange(pos as int, m as int));
            assert(t.skip(k + pat@.len()) =~= v@.skip(m + p@.len()));
            assert(out@ + replace_all(v@.skip(m + p@.len()), pat@, rep@) =~= before + replace_all(t, pat@, rep@));
            pos = m + p.len();
        }
    }
    assert(v@.skip(pos as int) =~= Seq::<char>::empty());
    assert(replace_all(Seq::<char>::empty(), pat@, rep@) =~= Seq::<char>::empty());
    assert(out@ =~= out@ + replace_all(v@.skip(pos as int), pat@, rep@));
    out
}

/// `trimmed_len` of the first `n` characters of `v`.
fn trim_len(v: &Vec<char>, sep: char, n: usize) -> (r: usize)
    requires
        n <= v@.len(),
    ensures
        r == trimmed_len(v@, sep, n as int),
        r <= n,
        n >= 1 ==> r >= 1,
{
    let mut m = n;
    while m >= 2 && (v[m - 1] == '/' || v[m - 1] == sep || (v[m - 1] == '.' && (v[m - 2] == '/'
        || v[m - 2] == sep)))
        invariant
            m <= n <= v@.len(),
            n >= 1 ==> m >= 1,
            trimmed_len(v@, sep, n as int) == trimmed_len(v@, sep, m as int),
        decreases m,
    {
        m = m - 1;
    }
    m
}

/// The file `name` beside `path`: its last component replaced by `name`;
/// none when `path` has no file name.
pub fn sibling_path(path: &str, sep: char, name: &str) -> (r: Option<String>)
    ensures
        r matches Some(x) ==> sibling_file(path@, sep, name@) == Some(x@),
        r is None ==> sibling_file(path@, sep, name@) is None,
{
    let v = chars_of(path);
    let n = trim_len(&v, sep, v.len());
    let mut k = n;
    while k > 0 && v[k - 1] != '/' && v[k - 1] != sep
        invariant
            v@ == path@,
            k <= n <= v@.len(),
            last_separator(path@, sep, n as int) == last_separator(path@, sep, k as int),
        decreases k,
    {
        k = k - 1;
    }
    let d: usize = if sep == '\\' && v.len() >= 2 && v[1] == ':' && ((65 <= v[0] as u32 && v[0] as u32 <= 90)
        || (97 <= v[0] as u32 && v[0] as u32 <= 122)) {
        2
    } else {
        0
    };
    assert(d == drive_len(path@, sep));
    if d == 2 {
        proof {
            lemma_trimmed_keeps_drive(path@, sep, path@.len() as int);
        }
    }
    let at_drive = k == 0;
    if k == 0 {
        k = d;
    }
    assert(name_start(path@, sep, n as int) == k);
    let c_len = n - k;
    if c_len == 0 || (c_len == 1 && v[k] == '.') || (c_len == 2 && v[k] == '.' && v[k + 1] == '.') {
        proof {
            reveal_strlit(".");
            reveal_strlit("..");
            let c = path@.subrange(k as int, n as int);
            if c_len == 1 {
                assert(c =~= "."@);
            }
            if c_len == 2 {
                assert(c =~= ".."@);
            }
        }
        return None;
    }
    proof {
        reveal_strlit(".");
        reveal_strlit("..");
        let c = path@.subrange(k as int, n as int);
        if c.len() == 1 {
            assert(c[0] != "."@[0]);
        }
        if c.len() == 2 {
            assert(c[0] != ".."@[0] || c[1] != ".."@[1]);
        }
    }
    let parent_len = if !at_drive {
        trim_len(&v, sep, k)
    } else {
        d
    };
    let mut s = String::new();
    push_range(&mut s, &v, 0, parent_len);
    assert(v@.subrange(0, parent_len as int) =~= parent_of(path@, sep));
    if !at_drive && parent_len > 0 && v[parent_len - 1] != '/' && v[parent_len - 1] != sep {
        push_char(&mut s, sep);
    }
    s.append(name);
    Some(s)
}

/// The places where ffprobe is looked for, in order of preference; the
/// first that exists is taken, and the search path after them all.
pub fn ffprobe_candidates(env_path: &Option<String>, ffmpeg: &Option<String>, windows: bool, sep: char) -> (r: Vec<String>)
    ensures
        texts(r@) == ffprobe_places(opt_view(*env_path), opt_view(*ffmpeg), windows, sep),
{
    let mut r: Vec<String> = Vec::new();
    match env_path {
        Some(e) => push_arg(&mut r, e.as_str()),
        None => {},
    }
    match ffmpeg {
        Some(f) => {
            let n = tool_name("ffprobe", windows);
            match sibling_path(f.as_str(), sep, n.as_str()) {
                Some(b) => push_owned(&mut r, b),
                None => {},
            }
            push_owned(&mut r, replace_text(f.as_str(), "ffmpeg", "ffprobe"));
        },
        None => {},
    }
    assert(texts(r@) =~= ffprobe_places(opt_view(*env_path), opt_view(*ffmpeg), windows, sep));
    r
}

/// The program and arguments that show `path` in the file manager: on
/// Windows, Explorer opening a folder or selecting a file; on macOS,
/// `open -R`; on Linux, `xdg-open` on the folder itself or on the folder
/// that holds the file (`parent`, else the path).
pub open spec fn reveal_command(
    platform: Platform,
    path: Seq<char>,
    is_dir: bool,
    parent: Option<Seq<char>>,
) -> (Seq<char>, Seq<Seq<char>>) {
    match platform {
        Platform::Windows => if is_dir {
            ("explorer"@, seq![path])
        } else {
            ("explorer"@, seq!["/select,"@, path])
        },
        Platform::MacOs => ("open"@, seq!["-R"@, path]),
        Platform::Linux => ("xdg-open"@, seq![
            if is_dir {
                path
            } else {
                match parent {
                    Some(p) => p,
                    None => path,
                }
            },
        ]),
    }
}

/// The program and arguments that show `path` in the file manager.
pub fn reveal_in_folder_command(
    platform: &Platform,
    path: &str,
    is_dir: bool,
    parent: &Option<String>,
) -> (r: (String, Vec<String>))
    ensures
        (r.0@, texts(r.1@)) == reveal_command(*platform, path@, is_dir, opt_view(*parent)),
{
    let mut args: Vec<String> = Vec::new();
    let program = match platform {
        Platform::Windows => {
            if !is_dir {
                push_arg(&mut args, "/select,");
            }
            push_arg(&mut args, path);
            String::from_str("explorer")
        },
        Platform::MacOs => {
            push_arg(&mut args, "-R");
            push_arg(&mut args, path);
            String::from_str("open")
        },
        Platform::Linux => {
            if is_dir {
                push_arg(&mut args, path);
            } else {
                match parent {
                    Some(p) => push_arg(&mut args, p.as_str()),
                    None => push_arg(&mut args, path),
                }
            }
            String::from_str("xdg-open")
        },
    };
    assert(texts(args@) =~= reveal_command(*platform, path@, is_dir, opt_view(*parent)).1);
    (program, args)
}

/// How serious a message from the user interface is.
pub enum LogLevel {
    Error,
    Warn,
    Info,
    Debug,
}

/// The level of a message from the user interface: `error`, `warn` and
/// `info` as named, anything else debug.
pub open spec fn level_of(level: Seq<char>) -> LogLevel {
    if level == "error"@ {
        LogLevel::Error
    } else if level == "warn"@ {
        LogLevel::Warn
    } else if level == "info"@ {
        LogLevel::Info
    } else {
        LogLevel::Debug
    }
}

/// The level of a message from the user interface.
pub fn frontend_log_level(level: &str) -> (r: LogLevel)
    ensures
        r == level_of(level@),
{
    if str_eq(level, "error") {
        LogLevel::Error
    } else if str_eq(level, "warn") {
        LogLevel::Warn
    } else if str_eq(level, "info") {
        LogLevel::Info
    } else {
        LogLevel::Debug
    }
}

} // verus!
