//! The local date and time of the video's first frame: from `--video-start`
//! or from a `YYYY-MM-DDTHH-MM-SS` stamp in the video's file name.
use vstd::prelude::*;

use crate::datetime::{chrono_parse, from_ymd_hms, from_ymd_hms_spec, parse_with_format, LocalDateTime};
use crate::text::{chars_of, trim, trim_spec};

verus! {

// ---------------------------------------------------------------------------
// Outside calls
// ---------------------------------------------------------------------------

/// The capture groups of the leftmost match of the regular expression
/// `pattern` in `haystack` (group 0 being the whole match, `None` for a group
/// that did not take part), or `None` if there is no match or the pattern does
/// not compile.
pub uninterp spec fn regex_captures(pattern: Seq<char>, haystack: Seq<char>) -> Option<Seq<Option<Seq<char>>>>;

/// The text of an optional capture.
pub open spec fn group_view(g: Option<String>) -> Option<Seq<char>> {
    match g {
        Some(t) => Some(t@),
        None => None,
    }
}

/// Compiles `pattern` with `regex::Regex::new` and calls `Regex::captures`
/// on `haystack` (regex 1), giving the text of each capture group.  Which
/// texts match, and what the groups capture, is the named result.
#[verifier::external_body]
fn first_captures(pattern: &str, haystack: &str) -> (r: Option<Vec<Option<String>>>)
    ensures
        r matches Some(groups) ==> regex_captures(pattern@, haystack@) == Some(
            groups@.map_values(|g: Option<String>| group_view(g)),
        ),
        r is None ==> regex_captures(pattern@, haystack@) is None,
{
    let re = regex::Regex::new(pattern).ok()?;
    let caps = re.captures(haystack)?;
    Some(caps.iter().map(|m| m.map(|m| m.as_str().to_string())).collect())
}

/// The last component of the path `path`, as `std::path::Path::file_name`
/// gives it, or `None` (for example when the path ends in `..`).
pub uninterp spec fn path_file_name(path: Seq<char>) -> Option<Seq<char>>;

/// Calls `std::path::Path::file_name` on `path`.  The path is UTF-8, and so
/// is each of its components, so the name converts without loss.  Which
/// component is the file name is the named result.
#[verifier::external_body]
fn file_name_of(path: &str) -> (r: Option<String>)
    ensures
        r matches Some(n) ==> path_file_name(path@) == Some(n@),
        r is None ==> path_file_name(path@) is None,
{
    std::path::Path::new(path).file_name().map(|n| n.to_string_lossy().into_owned())
}

// ---------------------------------------------------------------------------
// Decimal numbers (`str::parse` for `u32` and `i32`)
// ---------------------------------------------------------------------------

/// Whether `c` is one of the ASCII digits `0` to `9`.
pub open spec fn is_ascii_digit(c: char) -> bool {
    '0' <= c && c <= '9'
}

/// Whether every character of `s` is an ASCII digit.
pub open spec fn all_digits(s: Seq<char>) -> bool {
    forall|k: int| 0 <= k < s.len() ==> is_ascii_digit(#[trigger] s[k])
}

/// The value of the ASCII digits `s`.
pub open spec fn digits_value(s: Seq<char>) -> int
    decreases s.len(),
{
    if s.len() == 0 {
        0
    } else {
        digits_value(s.drop_last()) * 10 + (s.last() as int - 48)
    }
}

/// `str::parse::<u32>`: an optional `+` and at least one digit, no larger than `u32::MAX`.
pub open spec fn parse_u32_spec(s: Seq<char>) -> Option<u32> {
    let body = if s.len() > 0 && s[0] == '+' { s.drop_first() } else { s };
    if body.len() > 0 && all_digits(body) && digits_value(body) <= u32::MAX {
        Some(digits_value(body) as u32)
    } else {
        None
    }
}

/// `str::parse::<i32>`: an optional `+` or `-` and at least one digit, within the `i32` range.
pub open spec fn parse_i32_spec(s: Seq<char>) -> Option<i32> {
    let neg = s.len() > 0 && s[0] == '-';
    let body = if s.len() > 0 && (s[0] == '+' || s[0] == '-') { s.drop_first() } else { s };
    let v = if neg { -digits_value(body) } else { digits_value(body) };
    if body.len() > 0 && all_digits(body) && i32::MIN <= v <= i32::MAX {
        Some(v as i32)
    } else {
        None
    }
}

/// Cap on the digit values tracked while scanning (larger values are too large anyway).
const DIGITS_CAP: u64 = 0x1_0000_0000;

proof fn lemma_digits_value_nonneg(s: Seq<char>)
    requires
        all_digits(s),
    ensures
        digits_value(s) >= 0,
    decreases s.len(),
{
    if s.len() > 0 {
        assert(all_digits(s.drop_last()));
        lemma_digits_value_nonneg(s.drop_last());
        assert(is_ascii_digit(s[s.len() - 1]));
    }
}

/// Scans `chars[from..]`: `None` if some character is not a digit, else the
/// value of the digits, or `DIGITS_CAP + 1` if it is larger than `DIGITS_CAP`.
fn scan_digits(chars: &Vec<char>, from: usize) -> (r: Option<u64>)
    requires
        from <= chars@.len(),
    ensures
        ({
            let body = chars@.subrange(from as int, chars@.len() as int);
            match r {
                Some(v) => all_digits(body) && (if digits_value(body) <= DIGITS_CAP {
                    v == digits_value(body)
                } else {
                    v == DIGITS_CAP + 1
                }),
                None => !all_digits(body),
            }
        }),
{
    let mut v: u64 = 0;
    let mut k = from;
    while k < chars.len()
        invariant
            from <= k <= chars@.len(),
            all_digits(chars@.subrange(from as int, k as int)),
            ({
                let d = digits_value(chars@.subrange(from as int, k as int));
                if d <= DIGITS_CAP {
                    v == d
                } else {
                    v == DIGITS_CAP + 1
                }
            }),
        decreases chars@.len() - k,
    {
        let c = chars[k];
        let ghost pre = chars@.subrange(from as int, k as int);
        let ghost next = chars@.subrange(from as int, k + 1);
        assert(next.drop_last() =~= pre);
        if !('0' <= c && c <= '9') {
            assert(!is_ascii_digit(chars@.subrange(from as int, chars@.len() as int)[k - from]));
            return None;
        }
        proof {
            lemma_digits_value_nonneg(pre);
        }
        let d = (c as u32 - 48) as u64;
        if v > DIGITS_CAP {
            v = DIGITS_CAP + 1;
        } else {
            let w = v * 10 + d;
            v = if w > DIGITS_CAP { DIGITS_CAP + 1 } else { w };
        }
        proof {
            assert forall|q: int| 0 <= q < next.len() implies is_ascii_digit(#[trigger] next[q]) by {
                if q < pre.len() {
                    assert(next[q] == pre[q]);
                }
            }
        }
        k = k + 1;
    }
    Some(v)
}

/// `s.parse::<u32>().ok()`.
pub fn parse_u32(s: &str) -> (r: Option<u32>)
    ensures
        r == parse_u32_spec(s@),
{
    let chars = chars_of(s);
    let from: usize = if chars.len() > 0 && chars[0] == '+' { 1 } else { 0 };
    assert(chars@.subrange(from as int, chars@.len() as int) =~= (if s@.len() > 0 && s@[0] == '+' {
        s@.drop_first()
    } else {
        s@
    }));
    if from == chars.len() {
        return None;
    }
    match scan_digits(&chars, from) {
        Some(v) => if v <= 0xffff_ffff {
            Some(v as u32)
        } else {
            None
        },
        None => None,
    }
}

/// `s.parse::<i32>().ok()`.
pub fn parse_i32(s: &str) -> (r: Option<i32>)
    ensures
        r == parse_i32_spec(s@),
{
    let chars = chars_of(s);
    let neg = chars.len() > 0 && chars[0] == '-';
    let from: usize = if chars.len() > 0 && (chars[0] == '+' || chars[0] == '-') { 1 } else { 0 };
    let ghost body = chars@.subrange(from as int, chars@.len() as int);
    assert(body =~= (if s@.len() > 0 && (s@[0] == '+' || s@[0] == '-') {
        s@.drop_first()
    } else {
        s@
    }));
    if from == chars.len() {
        return None;
    }
    match scan_digits(&chars, from) {
        Some(v) => {
            proof {
                lemma_digits_value_nonneg(body);
            }
            if neg {
                if v <= 0x8000_0000 {
                    Some((0 - v as i64) as i32)
                } else {
                    None
                }
            } else {
                if v <= 0x7fff_ffff {
                    Some(v as i32)
                } else {
                    None
                }
            }
        },
        None => None,
    }
}

// ---------------------------------------------------------------------------
// The video's start
// ---------------------------------------------------------------------------

/// Why the start of the video could not be determined.
#[derive(Debug)]
pub enum VideoStartError {
    /// `--video-start` (shown trimmed) is in none of the accepted forms.
    InvalidArgument(String),
    /// The video's file name holds no `YYYY-MM-DDTHH-MM-SS` stamp of a real date and time.
    NoStampInFileName,
}

/// The four forms of `--video-start`, in the order they are tried.
pub open spec fn video_start_arg_spec(s: Seq<char>) -> Option<LocalDateTime> {
    let t = trim_spec(s);
    match chrono_parse(t, "%Y-%m-%dT%H:%M:%S"@) {
        Some((secs, nanos)) => Some(LocalDateTime { secs, nanos }),
        None => match chrono_parse(t, "%Y-%m-%dT%H:%M:%S%.f"@) {
            Some((secs, nanos)) => Some(LocalDateTime { secs, nanos }),
            None => match chrono_parse(t, "%Y-%m-%d %H:%M:%S"@) {
                Some((secs, nanos)) => Some(LocalDateTime { secs, nanos }),
                None => match chrono_parse(t, "%Y-%m-%d %H:%M:%S%.f"@) {
                    Some((secs, nanos)) => Some(LocalDateTime { secs, nanos }),
                    None => None,
                },
            },
        },
    }
}

/// Every documented form of `--video-start` is accepted: the text, trimmed,
/// is a start exactly when chrono reads it in one of the four forms
/// (`T` or space between date and time, each with or without fractional
/// seconds), and the start is the instant chrono reads in one of them,
/// the plain `T` form first.
pub proof fn law_video_start_arg_accepts_every_documented_form(s: Seq<char>)
    ensures
        ({
            let t = trim_spec(s);
            let a = chrono_parse(t, "%Y-%m-%dT%H:%M:%S"@);
            let b = chrono_parse(t, "%Y-%m-%dT%H:%M:%S%.f"@);
            let c = chrono_parse(t, "%Y-%m-%d %H:%M:%S"@);
            let d = chrono_parse(t, "%Y-%m-%d %H:%M:%S%.f"@);
            &&& (video_start_arg_spec(s) is Some) <==> (a is Some || b is Some || c is Some || d is Some)
            &&& video_start_arg_spec(s) matches Some(dt) ==> {
                ||| a == Some((dt.secs, dt.nanos))
                ||| b == Some((dt.secs, dt.nanos))
                ||| c == Some((dt.secs, dt.nanos))
                ||| d == Some((dt.secs, dt.nanos))
            }
            &&& a matches Some(p) ==> video_start_arg_spec(s) == Some(LocalDateTime { secs: p.0, nanos: p.1 })
        }),
{
}

/// Parses `--video-start`: `YYYY-MM-DDTHH:MM:SS` or `YYYY-MM-DD HH:MM:SS`,
/// each with optional fractional seconds, around white space.
pub fn parse_video_start_arg(s: &str) -> (r: Result<LocalDateTime, VideoStartError>)
    ensures
        match r {
            Ok(dt) => video_start_arg_spec(s@) == Some(dt) && dt.wf(),
            Err(VideoStartError::InvalidArgument(t)) => video_start_arg_spec(s@) is None && t@ == trim_spec(s@),
            Err(VideoStartError::NoStampInFileName) => false,
        },
{
    let t = trim(s);
    if let Some(dt) = parse_with_format(t.as_str(), "%Y-%m-%dT%H:%M:%S") {
        return Ok(dt);
    }
    if let Some(dt) = parse_with_format(t.as_str(), "%Y-%m-%dT%H:%M:%S%.f") {
        return Ok(dt);
    }
    if let Some(dt) = parse_with_format(t.as_str(), "%Y-%m-%d %H:%M:%S") {
        return Ok(dt);
    }
    if let Some(dt) = parse_with_format(t.as_str(), "%Y-%m-%d %H:%M:%S%.f") {
        return Ok(dt);
    }
    Err(VideoStartError::InvalidArgument(t))
}

/// The pattern of the date and time stamp in video file names.
pub open spec fn stamp_pattern() -> Seq<char> {
    "(\\d{4})-(\\d{2})-(\\d{2})T(\\d{2})-(\\d{2})-(\\d{2})"@
}

/// The regular expression that finds `YYYY-MM-DDTHH-MM-SS` in a file name.
pub fn filename_datetime_pattern() -> (p: &'static str)
    ensures
        p@ == stamp_pattern(),
{
    "(\\d{4})-(\\d{2})-(\\d{2})T(\\d{2})-(\\d{2})-(\\d{2})"
}

/// Text of capture group `k`, if it took part.
pub open spec fn group_text(groups: Seq<Option<Seq<char>>>, k: int) -> Option<Seq<char>> {
    if 0 <= k < groups.len() {
        groups[k]
    } else {
        None
    }
}

/// Capture group `k` read as a `u32`.
pub open spec fn group_u32(groups: Seq<Option<Seq<char>>>, k: int) -> Option<u32> {
    match group_text(groups, k) {
        Some(t) => parse_u32_spec(t),
        None => None,
    }
}

/// The start that the capture groups of a stamp give: groups 1 to 6 read as
/// year, month, day, hour, minute and second, if that is a real date and time.
pub open spec fn video_start_from_groups(groups: Seq<Option<Seq<char>>>) -> Option<LocalDateTime> {
    let y = match group_text(groups, 1) {
        Some(t) => parse_i32_spec(t),
        None => None,
    };
    match (y, group_u32(groups, 2), group_u32(groups, 3), group_u32(groups, 4), group_u32(groups, 5), group_u32(groups, 6)) {
        (Some(y), Some(mo), Some(d), Some(h), Some(mi), Some(s)) => from_ymd_hms_spec(y, mo, d, h, mi, s),
        _ => None,
    }
}

/// The start that a file name gives: the first stamp in it, if that is a
/// real date and time.
pub open spec fn video_start_from_name_spec(name: Seq<char>) -> Option<LocalDateTime> {
    match regex_captures(stamp_pattern(), name) {
        None => None,
        Some(groups) => video_start_from_groups(groups),
    }
}

/// The start that the file name of `path` gives.
pub open spec fn video_start_from_path_spec(path: Seq<char>) -> Option<LocalDateTime> {
    match path_file_name(path) {
        Some(name) => video_start_from_name_spec(name),
        None => None,
    }
}

/// Capture group `k` as a `u32`.
fn capture_u32(groups: &Vec<Option<String>>, k: usize) -> (r: Option<u32>)
    ensures
        r == group_u32(groups@.map_values(|g: Option<String>| group_view(g)), k as int),
{
    let ghost gv = groups@.map_values(|g: Option<String>| group_view(g));
    if k < groups.len() {
        assert(gv[k as int] == group_view(groups@[k as int]));
        match &groups[k] {
            Some(t) => parse_u32(t.as_str()),
            None => None,
        }
    } else {
        None
    }
}

/// Reads the capture groups of a stamp (group 0 the whole stamp, groups 1 to 6
/// its numbers) as a local date and time.
pub fn video_start_from_captures(groups: &Vec<Option<String>>) -> (r: Option<LocalDateTime>)
    ensures
        r == video_start_from_groups(groups@.map_values(|g: Option<String>| group_view(g))),
        r matches Some(dt) ==> dt.wf(),
{
    let ghost gv = groups@.map_values(|g: Option<String>| group_view(g));
    let y = if 1 < groups.len() {
        assert(gv[1] == group_view(groups@[1]));
        match &groups[1] {
            Some(t) => parse_i32(t.as_str()),
            None => None,
        }
    } else {
        None
    };
    let mo = capture_u32(groups, 2);
    let d = capture_u32(groups, 3);
    let h = capture_u32(groups, 4);
    let mi = capture_u32(groups, 5);
    let s = capture_u32(groups, 6);
    match (y, mo, d, h, mi, s) {
        (Some(y), Some(mo), Some(d), Some(h), Some(mi), Some(s)) => from_ymd_hms(y, mo, d, h, mi, s),
        _ => None,
    }
}

/// The start that the first `YYYY-MM-DDTHH-MM-SS` stamp in the file name
/// `name` gives.
pub fn video_start_from_file_name(name: &str) -> (r: Option<LocalDateTime>)
    ensures
        r == video_start_from_name_spec(name@),
        r matches Some(dt) ==> dt.wf(),
{
    match first_captures(filename_datetime_pattern(), name) {
        Some(groups) => video_start_from_captures(&groups),
        None => None,
    }
}

/// Infers the start of the video from a `YYYY-MM-DDTHH-MM-SS` stamp in its
/// file name.
pub fn parse_video_start_from_path(video_path: &str) -> (r: Option<LocalDateTime>)
    ensures
        r == video_start_from_path_spec(video_path@),
        r matches Some(dt) ==> dt.wf(),
{
    match file_name_of(video_path) {
        Some(name) => video_start_from_file_name(name.as_str()),
        None => None,
    }
}

/// The start of the video: `--video-start` when given, else the stamp in
/// the video's file name.
pub fn resolve_video_start(video_path: &str, override_str: Option<&str>) -> (r: Result<
    LocalDateTime,
    VideoStartError,
>)
    ensures
        match override_str {
            Some(s) => match r {
                Ok(dt) => video_start_arg_spec(s@) == Some(dt) && dt.wf(),
                Err(VideoStartError::InvalidArgument(t)) => video_start_arg_spec(s@) is None && t@ == trim_spec(s@),
                Err(VideoStartError::NoStampInFileName) => false,
            },
            None => match r {
                Ok(dt) => video_start_from_path_spec(video_path@) == Some(dt) && dt.wf(),
                Err(VideoStartError::NoStampInFileName) => video_start_from_path_spec(video_path@) is None,
                Err(VideoStartError::InvalidArgument(_)) => false,
            },
        },
{
    match override_str {
        Some(s) => parse_video_start_arg(s),
        None => match parse_video_start_from_path(video_path) {
            Some(dt) => Ok(dt),
            None => Err(VideoStartError::NoStampInFileName),
        },
    }
}

} // verus!
