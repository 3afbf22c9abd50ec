//! Parsing of the external tool's line-delimited metadata output into
//! uniform search results.
//!
//! Each non-empty line is decoded independently; a line that is not a
//! JSON record, or whose record lacks the required `id` or `title`
//! field, is skipped and never aborts the lines after it. The decoder
//! itself is the outside JSON library behind one trusted wrapper; all
//! field fallback rules are verified here.

use vstd::prelude::*;

use crate::error::SearchError;
use crate::jsonval::{json_num_trunc, json_str};
use crate::search::{detect_platform_from_metadata, opt_view, spec_platform_of_metadata,
    SearchResult, SearchResultV};
use crate::text::{find_byte, lemma_find_byte, lemma_find_byte_at, trim_byte_slice, trim_bytes};
use vstd::string::StringSliceAdditionalSpecFns;

verus! {

/// Abstract value of one decoded metadata record: the plain fields the
/// library reads, each optional.
pub ghost struct RawEntryV {
    pub id: Option<Seq<char>>,
    pub title: Option<Seq<char>>,
    pub url: Option<Seq<char>>,
    pub webpage_url: Option<Seq<char>>,
    pub extractor: Option<Seq<char>>,
    pub extractor_key: Option<Seq<char>>,
    pub uploader: Option<Seq<char>>,
    pub channel: Option<Seq<char>>,
    pub duration: Option<u64>,
    pub view_count: Option<u64>,
    pub thumbnail: Option<Seq<char>>,
    pub thumbnail_urls: Seq<Option<Seq<char>>>,
}

/// One decoded metadata record. `thumbnail_urls` holds the `url` field
/// of each entry of the record's thumbnail collection, in order.
pub struct RawEntry {
    pub id: Option<String>,
    pub title: Option<String>,
    pub url: Option<String>,
    pub webpage_url: Option<String>,
    pub extractor: Option<String>,
    pub extractor_key: Option<String>,
    pub uploader: Option<String>,
    pub channel: Option<String>,
    pub duration: Option<u64>,
    pub view_count: Option<u64>,
    pub thumbnail: Option<String>,
    pub thumbnail_urls: Vec<Option<String>>,
}

impl View for RawEntry {
    type V = RawEntryV;

    open spec fn view(&self) -> RawEntryV {
        RawEntryV {
            id: opt_view(self.id),
            title: opt_view(self.title),
            url: opt_view(self.url),
            webpage_url: opt_view(self.webpage_url),
            extractor: opt_view(self.extractor),
            extractor_key: opt_view(self.extractor_key),
            uploader: opt_view(self.uploader),
            channel: opt_view(self.channel),
            duration: self.duration,
            view_count: self.view_count,
            thumbnail: opt_view(self.thumbnail),
            thumbnail_urls: self.thumbnail_urls.deep_view(),
        }
    }
}

/// The record decoded from one line of metadata output, or `None` when
/// the line is not a JSON record. The result is a function of the
/// line's bytes alone.
pub uninterp spec fn entry_of(line: Seq<u8>) -> Option<RawEntryV>;

/// Relies on serde_json's `Value::get`, `Value::as_array`,
/// `Value::as_str`: the `url` field of each entry of the record's
/// thumbnail collection, in order; empty without such a collection.
#[verifier::external_body]
fn json_thumb_urls(v: &serde_json::Value) -> (r: Vec<Option<String>>) {
    match v.get("thumbnails").and_then(|x| x.as_array()) {
        Some(a) => a.iter().map(|t| t.get("url").and_then(|u| u.as_str()).map(str::to_string)).collect(),
        None => Vec::new(),
    }
}

/// Relies on serde_json's `from_slice` parser and the `Value`
/// accessors behind `json_str`, `json_num_trunc` and
/// `json_thumb_urls`: the decoded plain fields depend on the line's
/// bytes alone. Numeric fields are read as numbers and truncated, as
/// the upstream records carry fractional durations.
#[verifier::external_body]
fn decode_line(line: &[u8]) -> (r: Option<RawEntry>)
    ensures
        (r is Some) == (entry_of(line@) is Some),
        r matches Some(e) ==> Some(e@) == entry_of(line@),
{
    let v: serde_json::Value = serde_json::from_slice(line).ok()?;
    Some(RawEntry {
        id: json_str(&v, "id"),
        title: json_str(&v, "title"),
        url: json_str(&v, "url"),
        webpage_url: json_str(&v, "webpage_url"),
        extractor: json_str(&v, "extractor"),
        extractor_key: json_str(&v, "extractor_key"),
        uploader: json_str(&v, "uploader"),
        channel: json_str(&v, "channel"),
        duration: json_num_trunc(&v, "duration"),
        view_count: json_num_trunc(&v, "view_count"),
        thumbnail: json_str(&v, "thumbnail"),
        thumbnail_urls: json_thumb_urls(&v),
    })
}

/// First entry of a thumbnail collection that has a URL.
pub open spec fn first_some(s: Seq<Option<Seq<char>>>) -> Option<Seq<char>>
    decreases s.len(),
{
    if s.len() == 0 {
        None
    } else if s[0] is Some {
        s[0]
    } else {
        first_some(s.drop_first())
    }
}

proof fn lemma_first_some_at(s: Seq<Option<Seq<char>>>, a: int)
    requires
        0 <= a <= s.len(),
        forall|k: int| 0 <= k < a ==> s[k] is None,
        a < s.len() ==> s[a] is Some,
    ensures
        first_some(s) == if a < s.len() {
            s[a]
        } else {
            None::<Seq<char>>
        },
    decreases s.len(),
{
    if s.len() > 0 && a > 0 {
        lemma_first_some_at(s.drop_first(), a - 1);
    }
}

/// The search result a complete record resolves to: explicit URL, then
/// page URL, then the platform's canonical watch URL built from the
/// identifier; direct thumbnail, then the first collection entry with
/// a URL; uploader, then channel; platform from the extractor hints,
/// then from the URL.
pub open spec fn spec_resolve(e: RawEntryV) -> SearchResultV
    recommends
        e.id is Some,
        e.title is Some,
{
    let url = if e.url is Some {
        e.url->0
    } else if e.webpage_url is Some {
        e.webpage_url->0
    } else {
        "https://www.youtube.com/watch?v="@ + e.id->0
    };
    SearchResultV {
        id: e.id->0,
        title: e.title->0,
        url: url,
        thumbnail: if e.thumbnail is Some {
            e.thumbnail
        } else {
            first_some(e.thumbnail_urls)
        },
        duration: e.duration,
        uploader: if e.uploader is Some {
            e.uploader
        } else {
            e.channel
        },
        view_count: e.view_count,
        platform: spec_platform_of_metadata(e.extractor, e.extractor_key, url),
    }
}

fn as_opt_str(o: &Option<String>) -> (r: Option<&str>)
    ensures
        crate::search::opt_str_view(r) == opt_view(*o),
{
    match o {
        Some(s) => Some(s.as_str()),
        None => None,
    }
}

/// Resolve one decoded record into a search result, rejecting records
/// that lack the required identifier or title.
pub fn resolve_entry(e: RawEntry) -> (r: Result<SearchResult, SearchError>)
    ensures
        e@.id is None ==> (r matches Err(SearchError::JsonParseError(m)) && m@
            == "Missing 'id' field"@),
        e@.id is Some && e@.title is None ==> (r matches Err(SearchError::JsonParseError(m)) && m@
            == "Missing 'title' field"@),
        e@.id is Some && e@.title is Some ==> (r matches Ok(sr) && sr@ == spec_resolve(e@)),
{
    let id = match e.id {
        Some(v) => v,
        None => {
            return Err(SearchError::JsonParseError(String::from_str("Missing 'id' field")));
        },
    };
    let title = match e.title {
        Some(v) => v,
        None => {
            return Err(SearchError::JsonParseError(String::from_str("Missing 'title' field")));
        },
    };
    let url = match e.url {
        Some(u) => u,
        None => match e.webpage_url {
            Some(w) => w,
            None => {
                let mut s = String::from_str("https://www.youtube.com/watch?v=");
                s.append(id.as_str());
                s
            },
        },
    };
    let platform = detect_platform_from_metadata(
        as_opt_str(&e.extractor),
        as_opt_str(&e.extractor_key),
        url.as_str(),
    );
    let thumbnail = match e.thumbnail {
        Some(t) => Some(t),
        None => {
            let m = e.thumbnail_urls.len();
            let mut i: usize = 0;
            while i < m && e.thumbnail_urls[i].is_none()
                invariant
                    m == e.thumbnail_urls@.len(),
                    i <= m,
                    forall|k: int| 0 <= k < i ==> e.thumbnail_urls.deep_view()[k] is None,
                decreases m - i,
            {
                proof {
                    assert(e.thumbnail_urls.deep_view()[i as int] is None);
                }
                i += 1;
            }
            proof {
                if i < m {
                    assert(e.thumbnail_urls.deep_view()[i as int] is Some);
                }
                lemma_first_some_at(e.thumbnail_urls.deep_view(), i as int);
            }
            if i < m {
                crate::search::clone_opt_string(&e.thumbnail_urls[i])
            } else {
                None
            }
        },
    };
    let uploader = match e.uploader {
        Some(u) => Some(u),
        None => e.channel,
    };
    Ok(SearchResult {
        id,
        title,
        url,
        thumbnail,
        duration: e.duration,
        uploader,
        view_count: e.view_count,
        platform,
    })
}

/// What one line of output contributes: `None` when the line is blank,
/// undecodable, or misses a required field.
pub open spec fn spec_line_result(l: Seq<u8>) -> Option<SearchResultV> {
    let t = trim_bytes(l);
    if t.len() == 0 {
        None
    } else {
        match entry_of(t) {
            None => None,
            Some(e) => if e.id is Some && e.title is Some {
                Some(spec_resolve(e))
            } else {
                None
            },
        }
    }
}

/// The contribution of one line as a sequence of zero or one results.
pub open spec fn line_seq(l: Seq<u8>) -> Seq<SearchResultV> {
    match spec_line_result(l) {
        None => Seq::empty(),
        Some(r) => seq![r],
    }
}

/// The results of a whole byte stream: its newline-separated lines'
/// contributions, in order.
pub open spec fn spec_parse_results(b: Seq<u8>) -> Seq<SearchResultV>
    decreases b.len(),
    via spec_parse_results_dec
{
    let p = find_byte(b, 10);
    if p >= b.len() {
        line_seq(b)
    } else {
        line_seq(b.subrange(0, p)) + spec_parse_results(b.subrange(p + 1, b.len() as int))
    }
}

#[via_fn]
proof fn spec_parse_results_dec(b: Seq<u8>) {
    lemma_find_byte(b, 10);
}

/// Parse one metadata line on its own, surfacing the reason a record
/// is rejected.
pub fn parse_single_result(line: &str) -> (r: Result<SearchResult, SearchError>)
    ensures
        entry_of(line.spec_bytes()) is None ==> (r matches Err(SearchError::JsonParseError(_))),
        (entry_of(line.spec_bytes()) matches Some(e) && e.id is None) ==> (r matches Err(
            SearchError::JsonParseError(m),
        ) && m@ == "Missing 'id' field"@),
        (entry_of(line.spec_bytes()) matches Some(e) && e.id is Some && e.title is None) ==> (
        r matches Err(SearchError::JsonParseError(m)) && m@ == "Missing 'title' field"@),
        (entry_of(line.spec_bytes()) matches Some(e) && e.id is Some && e.title is Some) ==> (
        r matches Ok(sr) && sr@ == spec_resolve(entry_of(line.spec_bytes())->0)),
{
    match decode_line(line.as_bytes()) {
        Some(e) => resolve_entry(e),
        None => Err(SearchError::JsonParseError(String::from_str("invalid JSON object"))),
    }
}

/// Parse the whole line-delimited metadata output. Every line is
/// handled independently, malformed lines are dropped, and the order
/// of the surviving records is kept, so the call never fails.
pub fn parse_search_results(stdout: &[u8]) -> (r: Result<Vec<SearchResult>, SearchError>)
    ensures
        r matches Ok(v) && v.deep_view() == spec_parse_results(stdout@),
{
    let n = stdout.len();
    let mut out: Vec<SearchResult> = Vec::new();
    let mut pos: usize = 0;
    proof {
        assert(stdout@.subrange(0, n as int) =~= stdout@);
        assert(out.deep_view() =~= Seq::<SearchResultV>::empty());
        assert(out.deep_view() + spec_parse_results(stdout@) =~= spec_parse_results(stdout@));
    }
    loop
        invariant_except_break
            n == stdout@.len(),
            pos <= n,
            spec_parse_results(stdout@) == out.deep_view() + spec_parse_results(
                stdout@.subrange(pos as int, n as int),
            ),
        ensures
            spec_parse_results(stdout@) == out.deep_view(),
        decreases n - pos,
    {
        let ghost prev_out = out.deep_view();
        let mut end: usize = pos;
        while end < n && *vstd::slice::slice_index_get(stdout, end) != 10
            invariant
                n == stdout@.len(),
                pos <= end <= n,
                forall|k: int| pos <= k < end ==> stdout@[k] != 10,
            decreases n - end,
        {
            end += 1;
        }
        let line = vstd::slice::slice_subrange(stdout, pos, end);
        let t = trim_byte_slice(line);
        if t.len() > 0 {
            match decode_line(t) {
                Some(e) => {
                    match resolve_entry(e) {
                        Ok(sr) => out.push(sr),
                        Err(_) => {},
                    }
                },
                None => {},
            }
        }
        proof {
            let suf = stdout@.subrange(pos as int, n as int);
            assert forall|k: int| 0 <= k < end - pos implies suf[k] != 10 by {
                assert(suf[k] == stdout@[pos + k]);
            }
            if end < n {
                assert(suf[end - pos] == stdout@[end as int]);
            }
            lemma_find_byte_at(suf, 10, end - pos);
            assert(suf.subrange(0, end - pos) =~= line@);
            if end < n {
                assert(suf.subrange(end - pos + 1, suf.len() as int) =~= stdout@.subrange(
                    end + 1,
                    n as int,
                ));
                assert(spec_parse_results(suf) == line_seq(line@) + spec_parse_results(
                    stdout@.subrange(end + 1, n as int),
                ));
            } else {
                assert(suf =~= line@);
                assert(spec_parse_results(suf) == line_seq(line@));
            }
            assert(out.deep_view() =~= prev_out + line_seq(line@));
        }
        if end == n {
            proof {
                assert(spec_parse_results(stdout@) =~= out.deep_view());
            }
            break ;
        }
        pos = end + 1;
    }
    Ok(out)
}

} // verus!
