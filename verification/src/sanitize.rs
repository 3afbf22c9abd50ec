//! Platform-specific URL normalization, applied once per download
//! attempt before validation.
//!
//! Catalog URLs of the platform whose pages embed a playlist context
//! together with a content identifier are rebuilt as a minimal
//! canonical URL around the leftmost identifier token, a token of the
//! shape `video`, an optional `-`, one digit run, `_`, and a second
//! digit run, both runs taken as long as possible. Article and
//! redirect URLs of the platform that carries tracking query
//! parameters are cut at the first `?`. Everything else is returned
//! unchanged.

use vstd::prelude::*;

use crate::downloader::VideoDownloader;
use crate::text::{contains_seq, digit_run_end, digit_run_end_exec, find_char, is_digit,
    is_digit_exec, lemma_digit_run_end, lemma_digit_run_end_at, lemma_find_char, matches_at,
    str_before_char, str_contains};

verus! {

/// Length of the identifier token starting at `i`, or `-1` when none
/// starts there. The token is `video`, an optional `-`, a non-empty
/// digit run, `_`, and a second non-empty digit run, each run maximal.
pub open spec fn vk_match_len(u: Seq<char>, i: int) -> int {
    if !matches_at(u, "video"@, i) {
        -1
    } else {
        let j = i + 5;
        let j2 = if j < u.len() && u[j] == '-' {
            j + 1
        } else {
            j
        };
        let a = digit_run_end(u, j2);
        if a == j2 {
            -1
        } else if a < u.len() && u[a] == '_' {
            let b = digit_run_end(u, a + 1);
            if b == a + 1 {
                -1
            } else {
                b - i
            }
        } else {
            -1
        }
    }
}

/// Position of the leftmost identifier token at or after `i`, or the
/// length of `u` when there is none.
pub open spec fn vk_find_from(u: Seq<char>, i: int) -> int
    decreases u.len() - i when i <= u.len()
{
    if i < 0 || i >= u.len() {
        u.len() as int
    } else if vk_match_len(u, i) >= 0 {
        i
    } else {
        vk_find_from(u, i + 1)
    }
}

/// Position of the leftmost identifier token of `u`.
pub open spec fn vk_find(u: Seq<char>) -> int {
    vk_find_from(u, 0)
}

/// Whether `u` holds an identifier token at all.
pub open spec fn vk_has_match(u: Seq<char>) -> bool {
    vk_find(u) < u.len()
}

/// The leftmost identifier token of `u`.
pub open spec fn vk_token(u: Seq<char>) -> Seq<char> {
    u.subrange(vk_find(u), vk_find(u) + vk_match_len(u, vk_find(u)))
}

/// The sanitized form of `u`.
pub open spec fn spec_sanitize(u: Seq<char>) -> Seq<char> {
    if (contains_seq(u, "vk.com"@) || contains_seq(u, "vkvideo.ru"@)) && vk_has_match(u) {
        "https://vk.com/"@ + vk_token(u)
    } else if contains_seq(u, "dzen.ru"@) {
        u.subrange(0, find_char(u, '?'))
    } else {
        u
    }
}

proof fn lemma_vk_find_at(u: Seq<char>, i: int)
    requires
        0 <= i <= u.len(),
        forall|k: int| 0 <= k < i ==> vk_match_len(u, k) < 0,
        i < u.len() ==> vk_match_len(u, i) >= 0,
    ensures
        vk_find(u) == i,
{
    lemma_vk_find_from_at(u, 0, i);
}

proof fn lemma_vk_find_from_at(u: Seq<char>, s: int, i: int)
    requires
        0 <= s <= i <= u.len(),
        forall|k: int| s <= k < i ==> vk_match_len(u, k) < 0,
        i < u.len() ==> vk_match_len(u, i) >= 0,
    ensures
        vk_find_from(u, s) == i,
    decreases i - s,
{
    if s < i {
        lemma_vk_find_from_at(u, s + 1, i);
    }
}

proof fn lemma_vk_find_from_props(u: Seq<char>, s: int)
    requires
        0 <= s <= u.len(),
    ensures
        s <= vk_find_from(u, s) <= u.len(),
        forall|k: int| s <= k < vk_find_from(u, s) ==> vk_match_len(u, k) < 0,
        vk_find_from(u, s) < u.len() ==> vk_match_len(u, vk_find_from(u, s)) >= 0,
    decreases u.len() - s,
{
    if s < u.len() && vk_match_len(u, s) < 0 {
        lemma_vk_find_from_props(u, s + 1);
    }
}

/// Position and extent of the leftmost identifier token.
pub proof fn lemma_vk_find_props(u: Seq<char>)
    ensures
        0 <= vk_find(u) <= u.len(),
        forall|k: int| 0 <= k < vk_find(u) ==> vk_match_len(u, k) < 0,
        vk_find(u) < u.len() ==> vk_match_len(u, vk_find(u)) >= 0,
{
    lemma_vk_find_from_props(u, 0);
}

/// A pattern that disagrees with the text at one offset does not match
/// there.
proof fn lemma_mismatch(u: Seq<char>, pat: Seq<char>, k: int, t: int)
    requires
        0 <= k,
        k + pat.len() <= u.len(),
        0 <= t < pat.len(),
        u[k + t] != pat[t],
    ensures
        !matches_at(u, pat, k),
{
    assert(u.subrange(k, k + pat.len() as int)[t] == u[k + t]);
}

/// A match inside a prefix of `u` is a match inside `u`.
proof fn lemma_contains_prefix(u: Seq<char>, q: int, pat: Seq<char>)
    requires
        0 <= q <= u.len(),
        contains_seq(u.subrange(0, q), pat),
    ensures
        contains_seq(u, pat),
{
    let r = u.subrange(0, q);
    let k = choose|k: int| matches_at(r, pat, k);
    assert(u.subrange(k, k + pat.len() as int) =~= r.subrange(k, k + pat.len() as int));
    assert(matches_at(u, pat, k));
}

/// An identifier token found in a prefix of `u` shows that `u` itself
/// holds one at the same position.
proof fn lemma_vk_match_prefix(u: Seq<char>, q: int, k: int)
    requires
        0 <= q <= u.len(),
        0 <= k,
        vk_match_len(u.subrange(0, q), k) >= 0,
    ensures
        vk_match_len(u, k) >= 0,
{
    reveal_strlit("video");
    let r = u.subrange(0, q);
    assert(matches_at(r, "video"@, k));
    assert(k + 5 <= q);
    assert(matches_at(u, "video"@, k)) by {
        assert(u.subrange(k, k + 5) =~= r.subrange(k, k + 5));
    }
    let j = k + 5;
    // The run bounds computed inside the prefix.
    let j2r = if j < r.len() && r[j] == '-' {
        j + 1
    } else {
        j
    };
    let ar = digit_run_end(r, j2r);
    lemma_digit_run_end(r, j2r);
    assert(ar != j2r);
    assert(ar < r.len() && r[ar] == '_');
    let br = digit_run_end(r, ar + 1);
    lemma_digit_run_end(r, ar + 1);
    assert(br != ar + 1);
    // The optional dash is inside the prefix, so `u` sees the same one.
    let j2 = if j < u.len() && u[j] == '-' {
        j + 1
    } else {
        j
    };
    if j2r != j2 {
        // Only possible when the prefix ends right after `video`; then
        // the first digit run in the prefix would have been empty.
        assert(j == q);
        assert(digit_run_end(r, j) == j);
        assert(false);
    }
    // The first run ends at a non-digit inside the prefix, hence ends
    // at the same place in `u`.
    assert(digit_run_end(u, j2) == ar) by {
        assert forall|t: int| j2 <= t < ar implies is_digit(#[trigger] u[t]) by {
            assert(is_digit(r[t]));
            assert(r[t] == u[t]);
        }
        lemma_digit_run_end_at(u, j2, ar);
    }
    // The second run in `u` extends at least as far as in the prefix.
    let bu = digit_run_end(u, ar + 1);
    lemma_digit_run_end(u, ar + 1);
    if bu < br {
        assert(is_digit(r[bu]));
        assert(r[bu] == u[bu]);
        assert(false);
    }
    assert(vk_match_len(u, k) == bu - k);
}

/// Sanitizing is idempotent: a second pass leaves the result as it is.
pub proof fn lemma_sanitize_idempotent(u: Seq<char>)
    ensures
        spec_sanitize(spec_sanitize(u)) == spec_sanitize(u),
{
    let p = "https://vk.com/"@;
    if (contains_seq(u, "vk.com"@) || contains_seq(u, "vkvideo.ru"@)) && vk_has_match(u) {
        lemma_vk_find_props(u);
        let i = vk_find(u);
        let l = vk_match_len(u, i);
        let tok = vk_token(u);
        let r = p + tok;
        reveal_strlit("https://vk.com/");
        reveal_strlit("vk.com");
        reveal_strlit("video");
        assert(p.len() == 15);
        // Unfold the match at `i` in `u`.
        assert(matches_at(u, "video"@, i));
        let j = i + 5;
        let j2 = if j < u.len() && u[j] == '-' {
            j + 1
        } else {
            j
        };
        let a = digit_run_end(u, j2);
        lemma_digit_run_end(u, j2);
        let b = digit_run_end(u, a + 1);
        assert(a != j2 && a < u.len() && u[a] == '_' && b != a + 1 && l == b - i);
        lemma_digit_run_end(u, a + 1);
        assert(j <= j2 && a > j2 && b > a + 1);
        assert(l >= 8);
        // The rebuilt URL contains the platform domain.
        assert(contains_seq(r, "vk.com"@)) by {
            assert(r.subrange(8, 14) =~= "vk.com"@);
            assert(matches_at(r, "vk.com"@, 8));
        }
        // Character correspondence between `r` and the token in `u`.
        assert(forall|t: int| 0 <= t < l ==> #[trigger] r[15 + t] == u[i + t]);
        // No token starts inside the fixed prefix.
        assert forall|k: int| 0 <= k < 15 implies vk_match_len(r, k) < 0 by {
            if k + 5 <= r.len() {
                if k == 8 {
                    assert(r[k + 1] == 'k');
                    lemma_mismatch(r, "video"@, k, 1);
                } else {
                    assert(r[k] != 'v');
                    lemma_mismatch(r, "video"@, k, 0);
                }
            }
        }
        // The token reappears at position 15 of `r`, same length.
        assert(matches_at(r, "video"@, 15)) by {
            assert(r.subrange(15, 20) =~= u.subrange(i, i + 5));
        }
        let j2r = if 20 < r.len() && r[20] == '-' {
            21
        } else {
            20int
        };
        assert(j2r == 15 + (j2 - i)) by {
            assert(r[20] == u[j]);
        }
        assert(digit_run_end(r, j2r) == 15 + (a - i)) by {
            assert(forall|t: int| j2r <= t < 15 + (a - i) ==> is_digit(r[t]));
            assert(r[15 + (a - i)] == u[a]);
            lemma_digit_run_end_at(r, j2r, 15 + (a - i));
        }
        assert(digit_run_end(r, 15 + (a - i) + 1) == 15 + l) by {
            assert(forall|t: int| 15 + (a - i) + 1 <= t < 15 + l ==> is_digit(r[t]));
            lemma_digit_run_end_at(r, 15 + (a - i) + 1, 15 + l);
        }
        assert(vk_match_len(r, 15) == l);
        lemma_vk_find_at(r, 15);
        assert(vk_has_match(r));
        assert(vk_token(r) =~= tok);
        assert(spec_sanitize(r) == p + vk_token(r));
        assert(p + vk_token(r) =~= r);
    } else if contains_seq(u, "dzen.ru"@) {
        lemma_find_char(u, '?');
        let q = find_char(u, '?');
        let r = u.subrange(0, q);
        // No token starts inside `r`, else `u` would hold one too.
        if (contains_seq(r, "vk.com"@) || contains_seq(r, "vkvideo.ru"@)) && vk_has_match(r) {
            lemma_vk_find_props(r);
            lemma_vk_match_prefix(u, q, vk_find(r));
            if contains_seq(r, "vk.com"@) {
                lemma_contains_prefix(u, q, "vk.com"@);
            } else {
                lemma_contains_prefix(u, q, "vkvideo.ru"@);
            }
            lemma_vk_find_props(u);
            assert(!vk_has_match(u));
            assert(false);
        }
        if contains_seq(r, "dzen.ru"@) {
            // `r` holds no `?`, so the second cut keeps all of it.
            lemma_find_char(r, '?');
            if find_char(r, '?') < r.len() {
                assert(r[find_char(r, '?')] == '?');
                assert(u[find_char(r, '?')] != '?');
                assert(false);
            }
            assert(spec_sanitize(r) == r.subrange(0, r.len() as int));
            assert(r.subrange(0, r.len() as int) =~= r);
        }
    }
}



/// Length of the identifier token starting at `i`, executably.
fn vk_match_at_exec(u: &str, len: usize, i: usize) -> (r: Option<usize>)
    requires
        len == u@.len(),
        i < len,
    ensures
        r matches Some(l) ==> vk_match_len(u@, i as int) == l as int && i + l <= len && 1 <= l,
        r is None ==> vk_match_len(u@, i as int) < 0,
{
    if !crate::text::str_matches_at(u, "video", i) {
        return None;
    }
    assert(i + 5 <= len) by {
        reveal_strlit("video");
    }
    let j = i + 5;
    let j2 = if j < len && u.get_char(j) == '-' {
        j + 1
    } else {
        j
    };
    let a = digit_run_end_exec(u, len, j2);
    if a == j2 {
        return None;
    }
    proof {
        lemma_digit_run_end(u@, j2 as int);
    }
    if a < len && u.get_char(a) == '_' {
        let b = digit_run_end_exec(u, len, a + 1);
        if b == a + 1 {
            None
        } else {
            Some(b - i)
        }
    } else {
        None
    }
}

/// Leftmost identifier token of `u`, as its position and length.
fn vk_find_exec(u: &str) -> (r: Option<(usize, usize)>)
    ensures
        r matches Some(p) ==> vk_has_match(u@) && p.0 as int == vk_find(u@)
            && p.1 as int == vk_match_len(u@, p.0 as int) && p.0 + p.1 <= u@.len(),
        r is None ==> !vk_has_match(u@),
{
    let len = u.unicode_len();
    let mut i: usize = 0;
    while i < len
        invariant
            len == u@.len(),
            i <= len,
            forall|k: int| 0 <= k < i ==> vk_match_len(u@, k) < 0,
        decreases len - i,
    {
        match vk_match_at_exec(u, len, i) {
            Some(l) => {
                proof {
                    lemma_vk_find_at(u@, i as int);
                }
                return Some((i, l));
            },
            None => {},
        }
        i += 1;
    }
    proof {
        lemma_vk_find_at(u@, len as int);
    }
    None
}

impl VideoDownloader {
    /// Rewrite `url` into its sanitized form: the canonical minimal
    /// URL around an embedded content-identifier token, the prefix
    /// before tracking query parameters, or the input unchanged.
    pub fn sanitize_url(url: &str) -> (r: String)
        ensures
            r@ == spec_sanitize(url@),
    {
        let len = url.unicode_len();
        if str_contains(url, "vk.com") || str_contains(url, "vkvideo.ru") {
            match vk_find_exec(url) {
                Some((i, l)) => {
                    assert(i + l <= len);
                    let tok = url.substring_char(i, i + l);
                    let mut s = String::from_str("https://vk.com/");
                    s.append(tok);
                    assert(s@ =~= spec_sanitize(url@));
                    return s;
                },
                None => {},
            }
        }
        if str_contains(url, "dzen.ru") {
            let pre = str_before_char(url, '?');
            return pre.to_owned();
        }
        url.to_owned()
    }
}

} // verus!
