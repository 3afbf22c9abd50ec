//! Platform classification, URL validation and the download-side
//! helpers: progress-line parsing, destination handling and failure
//! classification. The subprocess that performs the transfer runs
//! outside the library and feeds its output through these functions.

use vstd::prelude::*;

use crate::error::DownloadError;
use crate::text::{contains_seq, digit_run_end, digit_run_end_exec, ends_with_seq,
    is_digit, lemma_digit_run_end, nonws_run_end, skip_nonws, skip_ws, spec_has_char,
    starts_with_seq, str_contains, str_ends_with, str_has_char, str_starts_with, ws_run_end};

verus! {

/// The closed set of supported platforms.
#[derive(Debug, Clone, Copy, PartialEq, Eq, Structural)]
pub enum Platform {
    YouTube,
    TikTok,
    Twitter,
    Instagram,
    Reddit,
    Vk,
    Rutube,
    Dzen,
    Other,
}

/// One download attempt, consumed by the download engine.
#[derive(Debug)]
pub struct DownloadRequest {
    pub url: String,
    pub platform: Platform,
    pub output_path: Option<String>,
    pub overwrite: bool,
}

/// Platform implied by the domain fragments of `u`; the first matching
/// rule wins and unrecognized input is `Other`.
pub open spec fn spec_classify_url(u: Seq<char>) -> Platform {
    if contains_seq(u, "youtube.com"@) || contains_seq(u, "youtu.be"@) {
        Platform::YouTube
    } else if contains_seq(u, "tiktok.com"@) {
        Platform::TikTok
    } else if contains_seq(u, "twitter.com"@) || contains_seq(u, "x.com"@) {
        Platform::Twitter
    } else if contains_seq(u, "instagram.com"@) {
        Platform::Instagram
    } else if contains_seq(u, "reddit.com"@) {
        Platform::Reddit
    } else if contains_seq(u, "vk.com"@) || contains_seq(u, "vkvideo.ru"@) {
        Platform::Vk
    } else if contains_seq(u, "rutube.ru"@) {
        Platform::Rutube
    } else if contains_seq(u, "dzen.ru"@) {
        Platform::Dzen
    } else {
        Platform::Other
    }
}

/// A URL is accepted when it is non-empty, carries an http or https
/// scheme, and is at most 2048 characters long.
pub open spec fn spec_valid_url(u: Seq<char>) -> bool {
    u.len() > 0 && (starts_with_seq(u, "http://"@) || starts_with_seq(u, "https://"@))
        && u.len() <= 2048
}

/// Classification is a pure function of the input: any two results
/// obtained for the same URL are the same platform.
pub proof fn lemma_classify_deterministic(u: Seq<char>, r1: Platform, r2: Platform)
    requires
        r1 == spec_classify_url(u),
        r2 == spec_classify_url(u),
    ensures
        r1 == r2,
{
}

/// Drives a single download attempt to a fixed output directory.
pub struct VideoDownloader {
    output_directory: String,
}

impl VideoDownloader {
    /// The configured output directory.
    pub closed spec fn spec_output_directory(&self) -> Seq<char> {
        self.output_directory@
    }

    pub fn new(output_directory: String) -> (r: Self)
        ensures
            r.spec_output_directory() == output_directory@,
    {
        Self { output_directory }
    }

    /// Classify a URL by its domain fragments; total, and `Other` for
    /// anything unrecognized.
    pub fn detect_platform(url: &str) -> (r: Platform)
        ensures
            r == spec_classify_url(url@),
    {
        if str_contains(url, "youtube.com") || str_contains(url, "youtu.be") {
            Platform::YouTube
        } else if str_contains(url, "tiktok.com") {
            Platform::TikTok
        } else if str_contains(url, "twitter.com") || str_contains(url, "x.com") {
            Platform::Twitter
        } else if str_contains(url, "instagram.com") {
            Platform::Instagram
        } else if str_contains(url, "reddit.com") {
            Platform::Reddit
        } else if str_contains(url, "vk.com") || str_contains(url, "vkvideo.ru") {
            Platform::Vk
        } else if str_contains(url, "rutube.ru") {
            Platform::Rutube
        } else if str_contains(url, "dzen.ru") {
            Platform::Dzen
        } else {
            Platform::Other
        }
    }

    /// Accept exactly the URLs of `spec_valid_url`, naming the reason
    /// otherwise: empty input, a missing http/https scheme, or a length
    /// over 2048 characters.
    pub fn validate_url(url: &str) -> (r: Result<(), DownloadError>)
        ensures
            r is Ok <==> spec_valid_url(url@),
            url@.len() == 0 ==> (r matches Err(DownloadError::InvalidUrl(m))
                && m@ == "URL cannot be empty"@),
            url@.len() > 0 && !(starts_with_seq(url@, "http://"@)
                || starts_with_seq(url@, "https://"@)) ==> (r matches Err(
                DownloadError::InvalidUrl(m),
            ) && m@ == "URL must start with http:// or https://"@),
            url@.len() > 2048 && (starts_with_seq(url@, "http://"@)
                || starts_with_seq(url@, "https://"@)) ==> (r matches Err(
                DownloadError::InvalidUrl(m),
            ) && m@ == "URL is too long"@),
    {
        if url.unicode_len() == 0 {
            return Err(DownloadError::InvalidUrl(String::from_str("URL cannot be empty")));
        }
        if !str_starts_with(url, "http://") && !str_starts_with(url, "https://") {
            return Err(DownloadError::InvalidUrl(
                String::from_str("URL must start with http:// or https://"),
            ));
        }
        if url.unicode_len() > 2048 {
            return Err(DownloadError::InvalidUrl(String::from_str("URL is too long")));
        }
        Ok(())
    }

    pub fn get_output_directory(&self) -> (r: &str)
        ensures
            r@ == self.spec_output_directory(),
    {
        self.output_directory.as_str()
    }

    /// The URL a download attempt actually uses: the sanitized form of
    /// the request's URL, accepted only when it validates. No external
    /// work may start when this fails.
    pub fn prepare_url(url: &str) -> (r: Result<String, DownloadError>)
        ensures
            r is Ok <==> spec_valid_url(crate::sanitize::spec_sanitize(url@)),
            r matches Ok(u) ==> u@ == crate::sanitize::spec_sanitize(url@),
            r is Err ==> (r matches Err(DownloadError::InvalidUrl(_))),
    {
        let sanitized = Self::sanitize_url(url);
        match Self::validate_url(sanitized.as_str()) {
            Ok(()) => Ok(sanitized),
            Err(e) => {
                proof {
                    assert(e is InvalidUrl);
                }
                Err(e)
            },
        }
    }
}

/// A destination counts as a full file path when it names one of the
/// media container extensions; otherwise it is a directory.
pub open spec fn spec_is_media_file_path(p: Seq<char>) -> bool {
    ends_with_seq(p, ".mp4"@) || ends_with_seq(p, ".mkv"@) || ends_with_seq(p, ".webm"@)
}

/// Executable form of `spec_is_media_file_path`.
pub fn is_media_file_path(path: &str) -> (r: bool)
    ensures
        r == spec_is_media_file_path(path@),
{
    str_ends_with(path, ".mp4") || str_ends_with(path, ".mkv") || str_ends_with(path, ".webm")
}

/// The output template handed to the external tool: the destination
/// itself when it is a full file path, else a title-and-extension
/// template under the destination directory.
pub fn output_template(output_path: &str) -> (r: String)
    ensures
        spec_is_media_file_path(output_path@) ==> r@ == output_path@,
        !spec_is_media_file_path(output_path@) ==> r@ == output_path@
            + "/%(title)s.%(ext)s"@,
{
    if is_media_file_path(output_path) {
        output_path.to_owned()
    } else {
        let mut s = output_path.to_owned();
        s.append("/%(title)s.%(ext)s");
        s
    }
}

/// The constructed fallback path used when no new file can be found by
/// the directory diff: title and extension joined under the directory.
pub fn fallback_file_path(dir: &str, title: &str, ext: &str) -> (r: String)
    ensures
        r@ == dir@ + "/"@ + title@ + "."@ + ext@,
{
    let mut s = dir.to_owned();
    s.append("/");
    s.append(title);
    s.append(".");
    s.append(ext);
    s
}

/// Some element of `s` equals `x`.
pub open spec fn seq_has(s: Seq<Seq<char>>, x: Seq<char>) -> bool {
    exists|i: int| 0 <= i < s.len() && s[i] == x
}

/// The first element of `after` that does not occur in `before`, or
/// `None` when every element does.
pub open spec fn spec_first_new(before: Seq<Seq<char>>, after: Seq<Seq<char>>) -> Option<
    Seq<char>,
>
    decreases after.len(),
{
    if after.len() == 0 {
        None
    } else if !seq_has(before, after[0]) {
        Some(after[0])
    } else {
        spec_first_new(before, after.drop_first())
    }
}

proof fn lemma_first_new_at(before: Seq<Seq<char>>, after: Seq<Seq<char>>, a: int)
    requires
        0 <= a <= after.len(),
        forall|k: int| 0 <= k < a ==> seq_has(before, #[trigger] after[k]),
        a < after.len() ==> !seq_has(before, after[a]),
    ensures
        spec_first_new(before, after) == if a < after.len() {
            Some(after[a])
        } else {
            None::<Seq<char>>
        },
    decreases after.len(),
{
    if after.len() > 0 && a > 0 {
        assert(seq_has(before, after[0]));
        lemma_first_new_at(before, after.drop_first(), a - 1);
    }
}

fn seq_has_exec(before: &Vec<String>, x: &str) -> (r: bool)
    ensures
        r == seq_has(before.deep_view(), x@),
{
    let n = before.len();
    let mut i: usize = 0;
    while i < n
        invariant
            n == before@.len(),
            i <= n,
            forall|k: int| 0 <= k < i ==> before.deep_view()[k] != x@,
        decreases n - i,
    {
        if crate::text::str_eq(before[i].as_str(), x) {
            proof {
                assert(before.deep_view()[i as int] == x@);
            }
            return true;
        }
        proof {
            assert(before.deep_view()[i as int] == before@[i as int]@);
        }
        i += 1;
    }
    false
}

/// The newly created file after a transfer, found by comparing the
/// destination directory's listing against the snapshot taken before:
/// the first name of `after` that the snapshot does not hold.
pub fn first_new_file(before: &Vec<String>, after: &Vec<String>) -> (r: Option<String>)
    ensures
        match r {
            Some(f) => Some(f@) == spec_first_new(before.deep_view(), after.deep_view()),
            None => spec_first_new(before.deep_view(), after.deep_view()) is None,
        },
{
    let n = after.len();
    let mut i: usize = 0;
    while i < n
        invariant
            n == after@.len(),
            i <= n,
            forall|k: int| 0 <= k < i ==> seq_has(before.deep_view(), #[trigger] after.deep_view()[k]),
        decreases n - i,
    {
        if !seq_has_exec(before, after[i].as_str()) {
            proof {
                assert(after.deep_view()[i as int] == after@[i as int]@);
                lemma_first_new_at(before.deep_view(), after.deep_view(), i as int);
            }
            return Some(after[i].clone());
        }
        proof {
            assert(after.deep_view()[i as int] == after@[i as int]@);
        }
        i += 1;
    }
    proof {
        lemma_first_new_at(before.deep_view(), after.deep_view(), n as int);
    }
    None
}

/// Classify a failed metadata probe by its diagnostic text: messages
/// that say the item does not exist map to one normalized message;
/// network trouble and everything else pass the text through; the
/// known-broken article extractor of one platform gets an actionable
/// message asking for a direct item URL.
pub fn classify_metadata_failure(message: &str, url: &str) -> (r: DownloadError)
    ensures
        (contains_seq(message@, "Video unavailable"@) || contains_seq(message@, "not found"@))
            ==> (r matches DownloadError::DownloadFailed(m) && m@
            == "Video not found or unavailable"@),
        (!(contains_seq(message@, "Video unavailable"@) || contains_seq(message@, "not found"@))
            && (contains_seq(message@, "Network"@) || contains_seq(message@, "Connection"@)))
            ==> (r matches DownloadError::DownloadFailed(m) && m@ == message@),
        (!(contains_seq(message@, "Video unavailable"@) || contains_seq(message@, "not found"@))
            && !(contains_seq(message@, "Network"@) || contains_seq(message@, "Connection"@))
            && contains_seq(message@, "KeyError"@) && contains_seq(message@, "exportResponse"@)
            && contains_seq(url@, "dzen.ru"@)) ==> (r matches DownloadError::DownloadFailed(m)
            && m@
            == "Dzen article/channel URLs are currently not supported by yt-dlp. Please use direct video URLs (dzen.ru/video/watch/...)"@),
        (!(contains_seq(message@, "Video unavailable"@) || contains_seq(message@, "not found"@))
            && !(contains_seq(message@, "Network"@) || contains_seq(message@, "Connection"@))
            && !(contains_seq(message@, "KeyError"@) && contains_seq(message@, "exportResponse"@)
            && contains_seq(url@, "dzen.ru"@))) ==> (r matches DownloadError::DownloadFailed(m)
            && m@ == message@),
    {
    if str_contains(message, "Video unavailable") || str_contains(message, "not found") {
        DownloadError::DownloadFailed(String::from_str("Video not found or unavailable"))
    } else if str_contains(message, "Network") || str_contains(message, "Connection") {
        DownloadError::DownloadFailed(message.to_owned())
    } else if str_contains(message, "KeyError") && str_contains(message, "exportResponse")
        && str_contains(url, "dzen.ru") {
        DownloadError::DownloadFailed(
            String::from_str(
                "Dzen article/channel URLs are currently not supported by yt-dlp. Please use direct video URLs (dzen.ru/video/watch/...)",
            ),
        )
    } else {
        DownloadError::DownloadFailed(message.to_owned())
    }
}

/// Numeric value of a run of decimal digit characters.
pub open spec fn val_digits(ds: Seq<char>) -> int
    decreases ds.len(),
{
    if ds.len() == 0 {
        0
    } else {
        val_digits(ds.drop_last()) * 10 + ((ds.last() as u32) - 48)
    }
}

/// The percentage token with its trailing percent signs removed.
pub open spec fn strip_pct(t: Seq<char>) -> Seq<char>
    decreases t.len(),
{
    if t.len() > 0 && t.last() == '%' {
        strip_pct(t.drop_last())
    } else {
        t
    }
}

/// Value in permille of a stripped percentage token of the shape
/// `digits` or `digits.digits`: ten times the integer part plus the
/// first fractional digit, further fractional digits ignored. `None`
/// for any other shape, and for values too large for the result type.
pub open spec fn spec_token_permille(t: Seq<char>) -> Option<u32> {
    let d = digit_run_end(t, 0);
    if d == 0 {
        None
    } else {
        let whole = val_digits(t.subrange(0, d));
        let frac: int = if d == t.len() {
            0
        } else if t[d] == '.' && digit_run_end(t, d + 1) == t.len() {
            if d + 1 < t.len() {
                ((t[d + 1] as u32) - 48) as int
            } else {
                0
            }
        } else {
            -1
        };
        if frac < 0 {
            None
        } else if whole * 10 + frac > u32::MAX {
            None
        } else {
            Some((whole * 10 + frac) as u32)
        }
    }
}

/// Progress reported by one line of the external tool's output, in
/// permille of completion: the line must start with the download tag
/// and hold a percent sign; its second whitespace-separated token,
/// with trailing percent signs removed, carries the value.
pub open spec fn spec_progress_permille(l: Seq<char>) -> Option<u32> {
    if !(starts_with_seq(l, "[download]"@) && spec_has_char(l, '%')) {
        None
    } else {
        let a1 = ws_run_end(l, 0);
        let b1 = nonws_run_end(l, a1);
        let a2 = ws_run_end(l, b1);
        let b2 = nonws_run_end(l, a2);
        if a2 >= l.len() {
            None
        } else {
            spec_token_permille(strip_pct(l.subrange(a2, b2)))
        }
    }
}

proof fn lemma_val_digits_nonneg(s: Seq<char>)
    requires
        forall|j: int| 0 <= j < s.len() ==> is_digit(#[trigger] s[j]),
    ensures
        val_digits(s) >= 0,
    decreases s.len(),
{
    if s.len() > 0 {
        assert(is_digit(s.last()));
        assert(48 <= (s.last() as u32) <= 57);
        lemma_val_digits_nonneg(s.drop_last());
    }
}

proof fn lemma_val_digits_extend(t: Seq<char>, k: int, d: int)
    requires
        0 <= k <= d <= t.len(),
        forall|j: int| 0 <= j < d ==> is_digit(#[trigger] t[j]),
    ensures
        val_digits(t.subrange(0, d)) >= val_digits(t.subrange(0, k)),
    decreases d - k,
{
    if k < d {
        assert(t.subrange(0, k + 1).drop_last() =~= t.subrange(0, k));
        assert(t.subrange(0, k + 1).last() == t[k]);
        assert forall|j: int| 0 <= j < k implies is_digit(#[trigger] t.subrange(0, k)[j]) by {
            assert(t.subrange(0, k)[j] == t[j]);
        }
        lemma_val_digits_nonneg(t.subrange(0, k));
        assert(is_digit(t[k]));
        assert(48 <= (t[k] as u32) <= 57);
        assert(val_digits(t.subrange(0, k + 1)) >= val_digits(t.subrange(0, k)));
        lemma_val_digits_extend(t, k + 1, d);
    }
}

/// Parse the permille value out of one output line, the specification
/// being `spec_progress_permille`. A line that does not carry progress
/// yields `None` and must not affect control flow.
pub fn parse_progress_line(line: &str) -> (r: Option<u32>)
    ensures
        r == spec_progress_permille(line@),
{
    if !(str_starts_with(line, "[download]") && str_has_char(line, '%')) {
        return None;
    }
    let len = line.unicode_len();
    let a1 = skip_ws(line, len, 0);
    let b1 = skip_nonws(line, len, a1);
    let a2 = skip_ws(line, len, b1);
    let b2 = skip_nonws(line, len, a2);
    if a2 >= len {
        return None;
    }
    // Strip trailing percent signs from the token.
    let mut e: usize = b2;
    while e > a2 && line.get_char(e - 1) == '%'
        invariant
            starts_with_seq(line@, "[download]"@),
            spec_has_char(line@, '%'),
            len == line@.len(),
            a1 == ws_run_end(line@, 0),
            b1 == nonws_run_end(line@, a1 as int),
            a2 == ws_run_end(line@, b1 as int),
            b2 == nonws_run_end(line@, a2 as int),
            a2 < len,
            a2 <= e <= b2,
            b2 <= len,
            strip_pct(line@.subrange(a2 as int, b2 as int)) == strip_pct(
                line@.subrange(a2 as int, e as int),
            ),
        decreases e,
    {
        proof {
            assert(line@.subrange(a2 as int, e as int).drop_last() =~= line@.subrange(
                a2 as int,
                (e - 1) as int,
            ));
        }
        e -= 1;
    }
    let ghost t = strip_pct(line@.subrange(a2 as int, b2 as int));
    proof {
        assert(strip_pct(line@.subrange(a2 as int, e as int)) == line@.subrange(
            a2 as int,
            e as int,
        ));
        assert(t =~= line@.subrange(a2 as int, e as int));
        assert forall|j: int| 0 <= j < e - a2 implies #[trigger] t[j] == line@[a2 + j] by {
            assert(line@.subrange(a2 as int, e as int)[j] == line@[a2 + j]);
        }
    }
    // The token now lies at [a2, e); parse `digits` or `digits.digits`.
    let d = digit_run_end_exec(line, len, a2);
    let d_end = if d < e {
        d
    } else {
        e
    };
    proof {
        lemma_digit_run_end(line@, a2 as int);
        assert(forall|j: int| a2 <= j < d_end ==> is_digit(line@[j]));
        assert(digit_run_end(t, 0) == d_end - a2) by {
            assert forall|j: int| 0 <= j < d_end - a2 implies is_digit(#[trigger] t[j]) by {
                assert(t[j] == line@[a2 + j]);
            }
            if d_end - a2 < t.len() {
                assert(t[d_end - a2] == line@[d_end as int]);
                assert(!is_digit(t[d_end - a2]));
            }
            crate::text::lemma_digit_run_end_at(t, 0, d_end - a2);
        }
    }
    if d_end == a2 {
        return None;
    }
    // Accumulate the integer part, rejecting values that cannot fit.
    let mut acc: u64 = 0;
    let mut k: usize = a2;
    while k < d_end
        invariant
            starts_with_seq(line@, "[download]"@),
            spec_has_char(line@, '%'),
            len == line@.len(),
            a1 == ws_run_end(line@, 0),
            b1 == nonws_run_end(line@, a1 as int),
            a2 == ws_run_end(line@, b1 as int),
            b2 == nonws_run_end(line@, a2 as int),
            a2 < len,
            a2 <= k <= d_end <= e <= len,
            t == strip_pct(line@.subrange(a2 as int, b2 as int)),
            forall|j: int| a2 <= j < d_end ==> is_digit(line@[j]),
            acc <= u32::MAX,
            acc == val_digits(t.subrange(0, k - a2)),
            t.len() == e - a2,
            digit_run_end(t, 0) == d_end - a2,
            forall|j: int| 0 <= j < e - a2 ==> #[trigger] t[j] == line@[a2 + j],
        decreases d_end - k,
    {
        let c = line.get_char(k);
        proof {
            assert(is_digit(line@[k as int]));
            assert('0' <= c && c <= '9');
            assert(48 <= (c as u32) <= 57);
            assert(t.subrange(0, k - a2 + 1).drop_last() =~= t.subrange(0, k - a2));
            assert(t.subrange(0, k - a2 + 1).last() == t[k - a2]);
        }
        let digit = (c as u32) - 48;
        acc = acc * 10 + (digit as u64);
        if acc > 0xffff_ffff {
            proof {
                assert forall|j: int| 0 <= j < d_end - a2 implies is_digit(#[trigger] t[j]) by {
                    assert(t[j] == line@[a2 + j]);
                }
                lemma_val_digits_extend(t, k - a2 + 1, d_end - a2);
                assert(val_digits(t.subrange(0, d_end - a2)) >= acc);
                assert(t.subrange(0, digit_run_end(t, 0)) =~= t.subrange(0, d_end - a2));
            }
            return None;
        }
        k += 1;
    }
    proof {
        assert(t.subrange(0, digit_run_end(t, 0)) =~= t.subrange(0, d_end - a2));
    }
    // The fractional part: absent, or a dot followed by digits only.
    let mut frac: u32 = 0;
    if d_end < e {
        if line.get_char(d_end) != '.' {
            proof {
                assert(t[d_end - a2] != '.');
            }
            return None;
        }
        let f_end = digit_run_end_exec(line, len, d_end + 1);
        let f_stop = if f_end < e {
            f_end
        } else {
            e
        };
        proof {
            lemma_digit_run_end(line@, d_end + 1);
        }
        if f_stop < e {
            proof {
                assert(!is_digit(line@[f_stop as int]));
                assert forall|j: int|
                    d_end - a2 + 1 <= j < f_stop - a2 implies is_digit(#[trigger] t[j]) by {
                    assert(t[j] == line@[a2 + j]);
                    assert(is_digit(line@[a2 + j]));
                }
                assert(t[f_stop - a2] == line@[f_stop as int]);
                crate::text::lemma_digit_run_end_at(t, d_end - a2 + 1, f_stop - a2);
            }
            return None;
        }
        proof {
            assert(digit_run_end(t, d_end - a2 + 1) == t.len() as int) by {
                assert forall|j: int|
                    d_end - a2 + 1 <= j < t.len() implies is_digit(#[trigger] t[j]) by {
                    assert(t[j] == line@[a2 + j]);
                    assert(is_digit(line@[a2 + j]));
                }
                crate::text::lemma_digit_run_end_at(t, d_end - a2 + 1, t.len() as int);
            }
        }
        if d_end + 1 < e {
            let fc = line.get_char(d_end + 1);
            proof {
                assert(is_digit(line@[d_end + 1]));
                assert(t[d_end - a2 + 1] == line@[d_end + 1]);
            }
            frac = (fc as u32) - 48;
        }
    }
    let total = acc * 10 + (frac as u64);
    if total > 0xffff_ffff {
        return None;
    }
    Some(total as u32)
}

} // verus!

