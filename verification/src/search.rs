//! The search engine's verified core: search results, the search
//! service configuration, platform resolution from metadata hints, and
//! classification of external-tool failures. The subprocess and
//! network plumbing that feeds these functions lives outside the
//! library.

use vstd::prelude::*;

use crate::downloader::{spec_classify_url, spec_valid_url, Platform, VideoDownloader};
use crate::error::SearchError;
use crate::text::{contains_seq, int_rep, i32_to_string, lower_seq, str_contains_ci, str_trim,
    trim_spec};

verus! {

/// Abstract value of a search result.
pub ghost struct SearchResultV {
    pub id: Seq<char>,
    pub title: Seq<char>,
    pub url: Seq<char>,
    pub thumbnail: Option<Seq<char>>,
    pub duration: Option<u64>,
    pub uploader: Option<Seq<char>>,
    pub view_count: Option<u64>,
    pub platform: Platform,
}

/// One uniform search result, derived from a single metadata record.
#[derive(Debug)]
pub struct SearchResult {
    pub id: String,
    pub title: String,
    pub url: String,
    pub thumbnail: Option<String>,
    pub duration: Option<u64>,
    pub uploader: Option<String>,
    pub view_count: Option<u64>,
    pub platform: Platform,
}

/// Character sequence held by an optional string.
pub open spec fn opt_view(o: Option<String>) -> Option<Seq<char>> {
    match o {
        Some(s) => Some(s@),
        None => None,
    }
}

impl View for SearchResult {
    type V = SearchResultV;

    open spec fn view(&self) -> SearchResultV {
        SearchResultV {
            id: self.id@,
            title: self.title@,
            url: self.url@,
            thumbnail: opt_view(self.thumbnail),
            duration: self.duration,
            uploader: opt_view(self.uploader),
            view_count: self.view_count,
            platform: self.platform,
        }
    }
}

impl DeepView for SearchResult {
    type V = SearchResultV;

    open spec fn deep_view(&self) -> SearchResultV {
        self.view()
    }
}

pub(crate) fn clone_opt_string(o: &Option<String>) -> (r: Option<String>)
    ensures
        r == *o,
{
    match o {
        Some(s) => Some(s.clone()),
        None => None,
    }
}

impl Clone for SearchResult {
    fn clone(&self) -> (r: Self)
        ensures
            r == *self,
    {
        SearchResult {
            id: self.id.clone(),
            title: self.title.clone(),
            url: self.url.clone(),
            thumbnail: clone_opt_string(&self.thumbnail),
            duration: self.duration,
            uploader: clone_opt_string(&self.uploader),
            view_count: self.view_count,
            platform: self.platform,
        }
    }
}

/// Platform implied by an extractor-name hint, compared ignoring ASCII
/// case; `None` when the hint is unrecognized.
pub open spec fn spec_platform_from_hint(h: Seq<char>) -> Option<Platform> {
    let l = lower_seq(h);
    if contains_seq(l, "youtube"@) {
        Some(Platform::YouTube)
    } else if contains_seq(l, "tiktok"@) {
        Some(Platform::TikTok)
    } else if contains_seq(l, "twitter"@) || contains_seq(l, "x.com"@) {
        Some(Platform::Twitter)
    } else if contains_seq(l, "instagram"@) {
        Some(Platform::Instagram)
    } else if contains_seq(l, "reddit"@) {
        Some(Platform::Reddit)
    } else if contains_seq(l, "vk"@) {
        Some(Platform::Vk)
    } else if contains_seq(l, "rutube"@) {
        Some(Platform::Rutube)
    } else if contains_seq(l, "dzen"@) {
        Some(Platform::Dzen)
    } else {
        None
    }
}

/// Executable form of `spec_platform_from_hint`.
pub fn platform_from_hint(hint: &str) -> (r: Option<Platform>)
    ensures
        r == spec_platform_from_hint(hint@),
{
    if str_contains_ci(hint, "youtube") {
        Some(Platform::YouTube)
    } else if str_contains_ci(hint, "tiktok") {
        Some(Platform::TikTok)
    } else if str_contains_ci(hint, "twitter") || str_contains_ci(hint, "x.com") {
        Some(Platform::Twitter)
    } else if str_contains_ci(hint, "instagram") {
        Some(Platform::Instagram)
    } else if str_contains_ci(hint, "reddit") {
        Some(Platform::Reddit)
    } else if str_contains_ci(hint, "vk") {
        Some(Platform::Vk)
    } else if str_contains_ci(hint, "rutube") {
        Some(Platform::Rutube)
    } else if str_contains_ci(hint, "dzen") {
        Some(Platform::Dzen)
    } else {
        None
    }
}

/// Character sequence held by an optional string slice.
pub open spec fn opt_str_view(o: Option<&str>) -> Option<Seq<char>> {
    match o {
        Some(s) => Some(s@),
        None => None,
    }
}

/// Platform of a metadata record: a recognized extractor hint wins,
/// the extractor key is the second choice, and the URL's domain
/// fragments decide otherwise.
pub open spec fn spec_platform_of_metadata(
    extractor: Option<Seq<char>>,
    extractor_key: Option<Seq<char>>,
    url: Seq<char>,
) -> Platform {
    if extractor is Some && spec_platform_from_hint(extractor->0) is Some {
        spec_platform_from_hint(extractor->0)->0
    } else if extractor_key is Some && spec_platform_from_hint(extractor_key->0) is Some {
        spec_platform_from_hint(extractor_key->0)->0
    } else {
        spec_classify_url(url)
    }
}

/// Executable form of `spec_platform_of_metadata`.
pub fn detect_platform_from_metadata(
    extractor: Option<&str>,
    extractor_key: Option<&str>,
    url: &str,
) -> (r: Platform)
    ensures
        r == spec_platform_of_metadata(opt_str_view(extractor), opt_str_view(extractor_key), url@),
{
    if let Some(h) = extractor {
        if let Some(p) = platform_from_hint(h) {
            return p;
        }
    }
    if let Some(h) = extractor_key {
        if let Some(p) = platform_from_hint(h) {
            return p;
        }
    }
    VideoDownloader::detect_platform(url)
}

/// The rate-limit signatures, matched ignoring ASCII case.
pub open spec fn spec_is_rate_limit(m: Seq<char>) -> bool {
    let l = lower_seq(m);
    contains_seq(l, "http error 429"@) || contains_seq(l, "too many requests"@) || contains_seq(
        l,
        "rate limit"@,
    ) || contains_seq(l, "response code: 429"@)
}

/// Whether diagnostic text reports a request-rate limit.
pub fn is_rate_limit_message(message: &str) -> (r: bool)
    ensures
        r == spec_is_rate_limit(message@),
{
    str_contains_ci(message, "http error 429") || str_contains_ci(message, "too many requests")
        || str_contains_ci(message, "rate limit") || str_contains_ci(
        message,
        "response code: 429",
    )
}

/// Classify a failed external-tool run: rate-limit signatures always
/// yield `RateLimited` with the trimmed diagnostic text; anything else
/// yields `CommandFailed` naming the exit code, or the fact that a
/// signal ended the process, together with the trimmed text.
pub fn interpret_command_failure(stderr_text: &str, status_code: Option<i32>) -> (r: SearchError)
    ensures
        spec_is_rate_limit(stderr_text@) ==> (r matches SearchError::RateLimited(m) && m@
            == trim_spec(stderr_text@)),
        (!spec_is_rate_limit(stderr_text@) && status_code is Some) ==> (r matches
            SearchError::CommandFailed(m) && m@ == "exit code "@ + int_rep(status_code->0 as int)
            + ": "@ + trim_spec(stderr_text@)),
        !spec_is_rate_limit(stderr_text@) && status_code is None ==> (r matches
            SearchError::CommandFailed(m) && m@ == "terminated by signal: "@ + trim_spec(
            stderr_text@,
        )),
{
    if is_rate_limit_message(stderr_text) {
        return SearchError::RateLimited(str_trim(stderr_text).to_owned());
    }
    match status_code {
        Some(c) => {
            let mut m = String::from_str("exit code ");
            m.append(i32_to_string(c).as_str());
            m.append(": ");
            m.append(str_trim(stderr_text));
            SearchError::CommandFailed(m)
        },
        None => {
            let mut m = String::from_str("terminated by signal: ");
            m.append(str_trim(stderr_text));
            SearchError::CommandFailed(m)
        },
    }
}

/// Classify a failure to start the external tool: a missing executable
/// is its own error kind; any other spawn failure is an I/O error
/// carrying the reported message.
pub fn map_spawn_error(not_found: bool, message: &str) -> (r: SearchError)
    ensures
        not_found ==> r is MissingYtDlp,
        !not_found ==> (r matches SearchError::IoError(m) && m@ == message@),
{
    if not_found {
        SearchError::MissingYtDlp
    } else {
        SearchError::IoError(message.to_owned())
    }
}

/// Issues searches; holds the result limit used when a caller supplies
/// none.
#[derive(Debug, Clone, Copy)]
pub struct SearchService {
    default_limit: u32,
}

impl SearchService {
    /// The configured default limit; always at least one.
    pub closed spec fn spec_default_limit(&self) -> u32 {
        self.default_limit
    }

    /// Build a service; a zero default limit is floored to one.
    pub fn new(default_limit: u32) -> (r: Self)
        ensures
            r.spec_default_limit() == (if default_limit >= 1 {
                default_limit
            } else {
                1u32
            }),
            r.spec_default_limit() >= 1,
    {
        let floored = if default_limit >= 1 {
            default_limit
        } else {
            1
        };
        Self { default_limit: floored }
    }

    pub fn default_limit(&self) -> (r: u32)
        ensures
            r == self.spec_default_limit(),
    {
        self.default_limit
    }

    /// Decide what a query asks for. Empty or whitespace-only queries
    /// are rejected; a query that looks like a URL is completed with a
    /// scheme and, when it validates, becomes a single-target metadata
    /// query; a schemed URL that fails validation is rejected rather
    /// than searched for; everything else fans out as a keyword search
    /// over the searchable platforms.
    pub fn plan_search(&self, query: &str, limit: Option<u32>) -> (r: Result<
        SearchPlan,
        SearchError,
    >)
        ensures
            trim_spec(query@).len() == 0 ==> (r matches Err(SearchError::InvalidQuery(m)) && m@
                == "Query cannot be empty"@),
            trim_spec(query@).len() > 0 && spec_valid_url(spec_candidate(trim_spec(query@)))
                ==> (r matches Ok(p) && p matches SearchPlan::Url { url, limit: l } && url@
                == spec_candidate(trim_spec(query@)) && l == spec_effective_limit(
                limit,
                self.spec_default_limit(),
            )),
            (trim_spec(query@).len() > 0 && !spec_valid_url(spec_candidate(trim_spec(query@)))
                && spec_has_scheme(spec_candidate(trim_spec(query@)))) ==> (r matches Err(
                SearchError::InvalidQuery(m),
            ) && m@ == "Query is a URL that fails validation"@),
            (trim_spec(query@).len() > 0 && !spec_valid_url(spec_candidate(trim_spec(query@)))
                && !spec_has_scheme(spec_candidate(trim_spec(query@)))) ==> (r matches Ok(p)
                && p matches SearchPlan::Keyword { youtube_expr, dzen_url, rutube_query, limit: l }
                && youtube_expr@ == "ytsearch"@ + crate::text::dec_rep(
                spec_effective_limit(limit, self.spec_default_limit()) as int,
            ) + ":"@ + trim_spec(query@) && dzen_url@ == "https://dzen.ru/search?query="@
                + trim_spec(query@) && rutube_query@ == trim_spec(query@) && l
                == spec_effective_limit(limit, self.spec_default_limit())),
    {
        let trimmed = str_trim(query);
        if trimmed.unicode_len() == 0 {
            return Err(SearchError::InvalidQuery(String::from_str("Query cannot be empty")));
        }
        let lim = match limit {
            Some(v) => if v > 0 {
                v
            } else {
                self.default_limit
            },
            None => self.default_limit,
        };
        let url_like = !crate::text::str_has_whitespace(trimmed) && crate::text::str_has_char(trimmed, '.');
        let candidate: String = if url_like && !crate::text::str_starts_with(trimmed, "http") {
            let mut s = String::from_str("https://");
            s.append(trimmed);
            s
        } else {
            trimmed.to_owned()
        };
        if VideoDownloader::validate_url(candidate.as_str()).is_ok() {
            return Ok(SearchPlan::Url { url: candidate, limit: lim });
        }
        if crate::text::str_starts_with(candidate.as_str(), "http://")
            || crate::text::str_starts_with(candidate.as_str(), "https://") {
            return Err(SearchError::InvalidQuery(
                String::from_str("Query is a URL that fails validation"),
            ));
        }
        let mut youtube_expr = String::from_str("ytsearch");
        youtube_expr.append(crate::text::u64_to_string(lim as u64).as_str());
        youtube_expr.append(":");
        youtube_expr.append(trimmed);
        let mut dzen_url = String::from_str("https://dzen.ru/search?query=");
        dzen_url.append(trimmed);
        Ok(SearchPlan::Keyword {
            youtube_expr,
            dzen_url,
            rutube_query: trimmed.to_owned(),
            limit: lim,
        })
    }
}

/// What a query asks for: one metadata lookup of a single URL, or a
/// keyword fan-out with one expression or query per searchable source.
#[derive(Debug)]
pub enum SearchPlan {
    Url { url: String, limit: u32 },
    Keyword { youtube_expr: String, dzen_url: String, rutube_query: String, limit: u32 },
}

/// The limit a search runs with: the caller's value when positive,
/// else the service's default.
pub open spec fn spec_effective_limit(limit: Option<u32>, dflt: u32) -> u32 {
    if limit is Some && limit->0 > 0 {
        limit->0
    } else {
        dflt
    }
}

/// A query looks like a URL when it has no whitespace and holds a dot.
pub open spec fn spec_url_like(t: Seq<char>) -> bool {
    !crate::text::spec_has_whitespace(t) && crate::text::spec_has_char(t, '.')
}

/// The candidate URL tried for a query: the query itself, with a
/// scheme prepended when it looks like a URL and does not already
/// start with `http`.
pub open spec fn spec_candidate(t: Seq<char>) -> Seq<char> {
    if spec_url_like(t) && !crate::text::starts_with_seq(t, "http"@) {
        "https://"@ + t
    } else {
        t
    }
}

/// The candidate carries a proper scheme.
pub open spec fn spec_has_scheme(c: Seq<char>) -> bool {
    crate::text::starts_with_seq(c, "http://"@) || crate::text::starts_with_seq(c, "https://"@)
}

/// A result survives the post-filter unless it belongs to the platform
/// whose article pages break the upstream extractor.
pub open spec fn spec_keep(r: SearchResultV) -> bool {
    !(r.platform == Platform::Dzen && contains_seq(r.url, "/a/"@))
}

/// The surviving results of one list, in source order.
pub open spec fn kept(s: Seq<SearchResultV>) -> Seq<SearchResultV>
    decreases s.len(),
{
    if s.len() == 0 {
        Seq::empty()
    } else {
        kept(s.drop_last()) + if spec_keep(s.last()) {
            seq![s.last()]
        } else {
            Seq::empty()
        }
    }
}

/// What one task outcome contributes to the aggregate.
pub open spec fn outcome_results(o: Result<Vec<SearchResult>, SearchError>) -> Seq<
    SearchResultV,
> {
    match o {
        Ok(v) => kept(v.deep_view()),
        Err(_) => Seq::empty(),
    }
}

/// The aggregate of all task outcomes, in task order.
pub open spec fn merged(s: Seq<Result<Vec<SearchResult>, SearchError>>) -> Seq<SearchResultV>
    decreases s.len(),
{
    if s.len() == 0 {
        Seq::empty()
    } else {
        merged(s.drop_last()) + outcome_results(s.last())
    }
}

/// The earliest error among the outcomes.
pub open spec fn first_error(s: Seq<Result<Vec<SearchResult>, SearchError>>) -> Option<
    SearchError,
>
    decreases s.len(),
{
    if s.len() == 0 {
        None
    } else {
        match s[0] {
            Err(e) => Some(e),
            Ok(_) => first_error(s.drop_first()),
        }
    }
}

proof fn lemma_first_error_push(
    s: Seq<Result<Vec<SearchResult>, SearchError>>,
    x: Result<Vec<SearchResult>, SearchError>,
)
    ensures
        first_error(s.push(x)) == if first_error(s) is Some {
            first_error(s)
        } else {
            match x {
                Err(e) => Some(e),
                Ok(_) => None::<SearchError>,
            }
        },
    decreases s.len(),
{
    if s.len() == 0 {
        assert(s.push(x)[0] == x);
        if x is Ok {
            assert(s.push(x).drop_first() =~= s);
        }
    } else {
        assert(s.push(x)[0] == s[0]);
        assert(s.push(x).drop_first() =~= s.drop_first().push(x));
        lemma_first_error_push(s.drop_first(), x);
    }
}

/// Merge the outcomes of the concurrent search tasks: the surviving
/// results of the successful tasks, in task order and source order,
/// with the post-filter applied uniformly. When nothing at all
/// survived and some task failed, the earliest failure is surfaced;
/// otherwise the aggregate is returned, even when some tasks failed.
pub fn merge_results(outcomes: &Vec<Result<Vec<SearchResult>, SearchError>>) -> (r: Result<
    Vec<SearchResult>,
    SearchError,
>)
    ensures
        (merged(outcomes@).len() > 0 || first_error(outcomes@) is None) ==> (r matches Ok(v)
            && v.deep_view() == merged(outcomes@)),
        (merged(outcomes@).len() == 0 && first_error(outcomes@) is Some) ==> (r matches Err(e)
            && Some(e) == first_error(outcomes@)),
{
    let n = outcomes.len();
    let mut out: Vec<SearchResult> = Vec::new();
    let mut err: Option<SearchError> = None;
    let mut i: usize = 0;
    proof {
        assert(outcomes@.subrange(0, 0) =~= Seq::<Result<Vec<SearchResult>, SearchError>>::empty());
        assert(out.deep_view() =~= merged(outcomes@.subrange(0, 0)));
    }
    while i < n
        invariant
            n == outcomes@.len(),
            i <= n,
            out.deep_view() == merged(outcomes@.subrange(0, i as int)),
            err == first_error(outcomes@.subrange(0, i as int)),
        decreases n - i,
    {
        let ghost prefix = outcomes@.subrange(0, i as int);
        match &outcomes[i] {
            Ok(v) => {
                let m = v.len();
                let mut j: usize = 0;
                proof {
                    assert(v.deep_view().subrange(0, 0) =~= Seq::<SearchResultV>::empty());
                    assert(out.deep_view() =~= merged(prefix) + kept(
                        v.deep_view().subrange(0, 0),
                    ));
                }
                while j < m
                    invariant
                        m == v@.len(),
                        j <= m,
                        out.deep_view() == merged(prefix) + kept(v.deep_view().subrange(
                            0,
                            j as int,
                        )),
                    decreases m - j,
                {
                    let ghost sofar = v.deep_view().subrange(0, j as int);
                    let item = &v[j];
                    let keep_it = !(item.platform == Platform::Dzen && crate::text::str_contains(
                        item.url.as_str(),
                        "/a/",
                    ));
                    proof {
                        assert(v.deep_view().subrange(0, j + 1).drop_last() =~= sofar);
                        assert(v.deep_view().subrange(0, j + 1).last() == v.deep_view()[j as int]);
                        assert(v.deep_view()[j as int] == v@[j as int]@);
                        assert(keep_it == spec_keep(v.deep_view()[j as int]));
                    }
                    if keep_it {
                        let ghost prev = out.deep_view();
                        out.push(item.clone());
                        proof {
                            assert(out.deep_view() =~= prev.push(v.deep_view()[j as int]));
                            assert(out.deep_view() =~= merged(prefix) + kept(
                                v.deep_view().subrange(0, j + 1),
                            ));
                        }
                    }
                    j += 1;
                }
                proof {
                    assert(v.deep_view().subrange(0, m as int) =~= v.deep_view());
                }
            },
            Err(e) => {
                if err.is_none() {
                    err = Some(e.clone());
                }
            },
        }
        proof {
            assert(outcomes@.subrange(0, i + 1).drop_last() =~= prefix);
            assert(outcomes@.subrange(0, i + 1).last() == outcomes@[i as int]);
            assert(prefix.push(outcomes@[i as int]) =~= outcomes@.subrange(0, i + 1));
            lemma_first_error_push(prefix, outcomes@[i as int]);
        }
        i += 1;
    }
    proof {
        assert(outcomes@.subrange(0, n as int) =~= outcomes@);
    }
    if out.len() == 0 {
        match err {
            Some(e) => {
                return Err(e);
            },
            None => {
                return Ok(out);
            },
        }
    }
    Ok(out)
}

} // verus!
