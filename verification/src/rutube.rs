//! The direct-API search source: its request URL and the decoding of
//! its JSON response into uniform search results. The HTTP request
//! itself is made outside the library; the response body is handed to
//! `parse_rutube_results`.

use vstd::prelude::*;

use crate::downloader::Platform;
use crate::error::SearchError;
use crate::jsonval::{json_str, json_u64};
use crate::search::{SearchResult, SearchResultV};
use crate::text::dec_rep;
use vstd::string::StringSliceAdditionalSpecFns;

verus! {

/// Bytes that percent-encoding passes through unchanged: ASCII
/// alphanumerics and `-`, `.`, `_`, `~`.
pub open spec fn keep_byte(b: u8) -> bool {
    (48 <= b <= 57) || (65 <= b <= 90) || (97 <= b <= 122) || b == 45 || b == 46 || b == 95
        || b == 126
}

/// Upper-case hexadecimal digit for a value below sixteen.
pub open spec fn hex_digit_char(d: u8) -> char {
    if d < 10 {
        ((48 + d) as u8) as char
    } else {
        ((55 + d) as u8) as char
    }
}

/// Percent-encoding of a byte sequence: kept bytes stand for
/// themselves, every other byte becomes `%` and two upper-case hex
/// digits.
pub open spec fn percent_encoded(bs: Seq<u8>) -> Seq<char>
    decreases bs.len(),
{
    if bs.len() == 0 {
        Seq::empty()
    } else {
        let head: Seq<char> = if keep_byte(bs[0]) {
            seq![bs[0] as char]
        } else {
            seq!['%', hex_digit_char(bs[0] >> 4), hex_digit_char(bs[0] & 15)]
        };
        head + percent_encoded(bs.drop_first())
    }
}

/// Relies on urlencoding::encode: every byte of the UTF-8 text except
/// ASCII alphanumerics and `-`, `_`, `.`, `~` is written as `%` and
/// two upper-case hex digits, the rest stand for themselves.
#[verifier::external_body]
fn encode_component(s: &str) -> (r: String)
    ensures
        r@ == percent_encoded(s.spec_bytes()),
{
    urlencoding::encode(s).into_owned()
}

/// The search endpoint URL for a query and a result limit.
pub fn rutube_search_url(query: &str, limit: u32) -> (r: String)
    ensures
        r@ == "https://rutube.ru/api/search/video/?query="@ + percent_encoded(query.spec_bytes())
            + "&page=1&per_page="@ + dec_rep(limit as int),
{
    let mut s = String::from_str("https://rutube.ru/api/search/video/?query=");
    s.append(encode_component(query).as_str());
    s.append("&page=1&per_page=");
    s.append(crate::text::u64_to_string(limit as u64).as_str());
    s
}

/// Abstract value of one record of the endpoint's `results` array.
pub ghost struct RutubeItemV {
    pub id: Option<Seq<char>>,
    pub title: Option<Seq<char>>,
    pub video_url: Option<Seq<char>>,
    pub thumbnail_url: Option<Seq<char>>,
    pub duration: Option<u64>,
    pub author_name: Option<Seq<char>>,
    pub hits: Option<u64>,
}

/// One decoded record of the endpoint's `results` array.
pub struct RutubeItem {
    pub id: Option<String>,
    pub title: Option<String>,
    pub video_url: Option<String>,
    pub thumbnail_url: Option<String>,
    pub duration: Option<u64>,
    pub author_name: Option<String>,
    pub hits: Option<u64>,
}

impl View for RutubeItem {
    type V = RutubeItemV;

    open spec fn view(&self) -> RutubeItemV {
        RutubeItemV {
            id: crate::search::opt_view(self.id),
            title: crate::search::opt_view(self.title),
            video_url: crate::search::opt_view(self.video_url),
            thumbnail_url: crate::search::opt_view(self.thumbnail_url),
            duration: self.duration,
            author_name: crate::search::opt_view(self.author_name),
            hits: self.hits,
        }
    }
}

impl DeepView for RutubeItem {
    type V = RutubeItemV;

    open spec fn deep_view(&self) -> RutubeItemV {
        self.view()
    }
}

/// The records decoded from a response body, or `None` when the body
/// is not a JSON object with a `results` array. The result is a
/// function of the body's text alone.
pub uninterp spec fn rutube_items_of(body: Seq<char>) -> Option<Seq<RutubeItemV>>;

/// Relies on serde_json's `Value` accessors behind `json_str` and
/// `json_u64`, and on `Value::get` and `Value::as_str` for the nested
/// author name: the plain fields of one record of the `results` array.
#[verifier::external_body]
fn decode_rutube_item(it: &serde_json::Value) -> (r: RutubeItem) {
    RutubeItem {
        id: json_str(it, "id"),
        title: json_str(it, "title"),
        video_url: json_str(it, "video_url"),
        thumbnail_url: json_str(it, "thumbnail_url"),
        duration: json_u64(it, "duration"),
        author_name: it.get("author").and_then(|a| a.get("name"))
            .and_then(|x| x.as_str()).map(str::to_string),
        hits: json_u64(it, "hits"),
    }
}

/// Relies on serde_json's `from_str` parser, `Value::get` and
/// `Value::as_array`, and on `decode_rutube_item` for each record: the
/// decoded plain fields depend on the body's text alone.
#[verifier::external_body]
fn decode_rutube_body(body: &str) -> (r: Option<Vec<RutubeItem>>)
    ensures
        (r is Some) == (rutube_items_of(body@) is Some),
        r matches Some(v) ==> Some(v.deep_view()) == rutube_items_of(body@),
{
    let v: serde_json::Value = serde_json::from_str(body).ok()?;
    let arr = v.get("results")?.as_array()?;
    Some(arr.iter().map(decode_rutube_item).collect())
}

/// A record is usable when it carries the three required fields.
pub open spec fn rutube_item_complete(it: RutubeItemV) -> bool {
    it.id is Some && it.title is Some && it.video_url is Some
}

/// The search result a complete record maps to.
pub open spec fn spec_rutube_result(it: RutubeItemV) -> SearchResultV
    recommends
        rutube_item_complete(it),
{
    SearchResultV {
        id: it.id->0,
        title: it.title->0,
        url: it.video_url->0,
        thumbnail: it.thumbnail_url,
        duration: it.duration,
        uploader: it.author_name,
        view_count: it.hits,
        platform: Platform::Rutube,
    }
}

/// Decode a whole response body. The call fails exactly when the body
/// is not a JSON object with a `results` array or some record lacks a
/// required field; otherwise every record maps to a result, in order.
pub fn parse_rutube_results(json: &str) -> (r: Result<Vec<SearchResult>, SearchError>)
    ensures
        rutube_items_of(json@) is None ==> (r matches Err(SearchError::JsonParseError(_))),
        rutube_items_of(json@) matches Some(items) ==> ((r is Ok) == (forall|i: int|
            0 <= i < items.len() ==> rutube_item_complete(#[trigger] items[i]))),
        (rutube_items_of(json@) is Some && r is Ok) ==> (r->Ok_0).deep_view() == (
        rutube_items_of(json@)->0).map_values(|it: RutubeItemV| spec_rutube_result(it)),
{
    let items = match decode_rutube_body(json) {
        Some(v) => v,
        None => {
            return Err(SearchError::JsonParseError(
                String::from_str("Failed to parse Rutube response"),
            ));
        },
    };
    let n = items.len();
    let mut out: Vec<SearchResult> = Vec::new();
    let mut i: usize = 0;
    while i < n
        invariant
            Some(items.deep_view()) == rutube_items_of(json@),
            n == items@.len(),
            i <= n,
            out@.len() == i,
            forall|k: int| 0 <= k < i ==> rutube_item_complete(#[trigger] items.deep_view()[k]),
            forall|k: int|
                0 <= k < i ==> #[trigger] out.deep_view()[k] == spec_rutube_result(
                    items.deep_view()[k],
                ),
        decreases n - i,
    {
        let it = &items[i];
        let id = match &it.id {
            Some(v) => v.clone(),
            None => {
                proof {
                    assert(items.deep_view()[i as int] == items@[i as int].deep_view());
                    assert(!rutube_item_complete((rutube_items_of(json@)->0)[i as int]));
                }
                return Err(SearchError::JsonParseError(
                    String::from_str("Failed to parse Rutube response"),
                ));
            },
        };
        let title = match &it.title {
            Some(v) => v.clone(),
            None => {
                proof {
                    assert(items.deep_view()[i as int] == items@[i as int].deep_view());
                    assert(!rutube_item_complete((rutube_items_of(json@)->0)[i as int]));
                }
                return Err(SearchError::JsonParseError(
                    String::from_str("Failed to parse Rutube response"),
                ));
            },
        };
        let url = match &it.video_url {
            Some(v) => v.clone(),
            None => {
                proof {
                    assert(items.deep_view()[i as int] == items@[i as int].deep_view());
                    assert(!rutube_item_complete((rutube_items_of(json@)->0)[i as int]));
                }
                return Err(SearchError::JsonParseError(
                    String::from_str("Failed to parse Rutube response"),
                ));
            },
        };
        let sr = SearchResult {
            id,
            title,
            url,
            thumbnail: crate::search::clone_opt_string(&it.thumbnail_url),
            duration: it.duration,
            uploader: crate::search::clone_opt_string(&it.author_name),
            view_count: it.hits,
            platform: Platform::Rutube,
        };
        proof {
            assert(items.deep_view()[i as int] == items@[i as int].deep_view());
            assert(sr@ == spec_rutube_result(items.deep_view()[i as int]));
        }
        let ghost prev = out.deep_view();
        let ghost srv = sr@;
        out.push(sr);
        proof {
            assert(out.deep_view() =~= prev.push(srv));
        }
        i += 1;
    }
    proof {
        assert(out.deep_view() =~= items.deep_view().map_values(
            |it: RutubeItemV| spec_rutube_result(it),
        ));
    }
    Ok(out)
}

} // verus!
