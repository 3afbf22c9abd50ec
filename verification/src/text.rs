//! Character-sequence helpers shared by the whole library: substring
//! search, prefix tests, whitespace trimming, case-insensitive matching
//! and decimal formatting, each with an exact specification.

use vstd::prelude::*;

verus! {

/// `pat` occurs in `s` starting at index `i`.
pub open spec fn matches_at(s: Seq<char>, pat: Seq<char>, i: int) -> bool {
    0 <= i && i + pat.len() <= s.len() && s.subrange(i, i + pat.len() as int) == pat
}

/// `pat` occurs somewhere in `s`.
pub open spec fn contains_seq(s: Seq<char>, pat: Seq<char>) -> bool {
    exists|i: int| matches_at(s, pat, i)
}

/// `pat` is a prefix of `s`.
pub open spec fn starts_with_seq(s: Seq<char>, pat: Seq<char>) -> bool {
    pat.len() <= s.len() && s.subrange(0, pat.len() as int) == pat
}

/// Whether `pat` occurs in `s` at `i`, decided character by character.
fn eq_at(s: &str, s_len: usize, pat: &str, pat_len: usize, i: usize) -> (r: bool)
    requires
        s_len == s@.len(),
        pat_len == pat@.len(),
        i + pat_len <= s_len,
    ensures
        r == matches_at(s@, pat@, i as int),
{
    let mut j: usize = 0;
    while j < pat_len
        invariant
            j <= pat_len,
            s_len == s@.len(),
            pat_len == pat@.len(),
            i + pat_len <= s_len,
            forall|k: int| 0 <= k < j ==> s@[i + k] == pat@[k],
        decreases pat_len - j,
    {
        if s.get_char(i + j) != pat.get_char(j) {
            assert(s@.subrange(i as int, i + pat@.len() as int)[j as int] != pat@[j as int]);
            return false;
        }
        j += 1;
    }
    assert(s@.subrange(i as int, i + pat@.len() as int) =~= pat@);
    true
}

/// Substring test, the specification being `contains_seq`.
pub fn str_contains(s: &str, pat: &str) -> (r: bool)
    ensures
        r == contains_seq(s@, pat@),
{
    let s_len = s.unicode_len();
    let pat_len = pat.unicode_len();
    if pat_len > s_len {
        assert(forall|i: int| !matches_at(s@, pat@, i));
        return false;
    }
    if pat_len == 0 {
        assert(matches_at(s@, pat@, 0)) by {
            assert(s@.subrange(0, 0) =~= pat@);
        }
        return true;
    }
    let mut i: usize = 0;
    while i <= s_len - pat_len
        invariant
            s_len == s@.len(),
            pat_len == pat@.len(),
            1 <= pat_len <= s_len,
            i <= s_len - pat_len + 1,
            forall|k: int| 0 <= k < i ==> !matches_at(s@, pat@, k),
        decreases s_len - pat_len - i + 1,
    {
        if eq_at(s, s_len, pat, pat_len, i) {
            return true;
        }
        i += 1;
    }
    assert(forall|k: int| matches_at(s@, pat@, k) ==> 0 <= k <= s@.len() - pat@.len());
    false
}

/// Prefix test, the specification being `starts_with_seq`.
pub fn str_starts_with(s: &str, pat: &str) -> (r: bool)
    ensures
        r == starts_with_seq(s@, pat@),
{
    let s_len = s.unicode_len();
    let pat_len = pat.unicode_len();
    if pat_len > s_len {
        return false;
    }
    eq_at(s, s_len, pat, pat_len, 0)
}

/// Whether `pat` occurs in `s` at index `i`, for any `i`.
pub fn str_matches_at(s: &str, pat: &str, i: usize) -> (r: bool)
    ensures
        r == matches_at(s@, pat@, i as int),
{
    let s_len = s.unicode_len();
    let pat_len = pat.unicode_len();
    if i > s_len || pat_len > s_len - i {
        return false;
    }
    eq_at(s, s_len, pat, pat_len, i)
}

/// Equality of two string slices by their character sequences.
pub fn str_eq(a: &str, b: &str) -> (r: bool)
    ensures
        r == (a@ == b@),
{
    let a_len = a.unicode_len();
    let b_len = b.unicode_len();
    if a_len != b_len {
        return false;
    }
    let r = eq_at(a, a_len, b, b_len, 0);
    proof {
        if r {
            assert(a@.subrange(0, b@.len() as int) =~= a@);
        } else {
            if a@ == b@ {
                assert(a@.subrange(0, b@.len() as int) =~= b@);
            }
        }
    }
    r
}

/// The characters `str::trim` removes.
pub open spec fn is_space(c: char) -> bool {
    c == ' ' || c == '\t' || c == '\n' || c == '\r' || c == '\u{b}' || c == '\u{c}'
        || c == '\u{85}' || c == '\u{a0}' || c == '\u{1680}'
        || ('\u{2000}' <= c && c <= '\u{200a}') || c == '\u{2028}' || c == '\u{2029}'
        || c == '\u{202f}' || c == '\u{205f}' || c == '\u{3000}'
}

/// Number of leading whitespace characters of `s`.
pub open spec fn lead_spaces(s: Seq<char>) -> int
    decreases s.len(),
{
    if s.len() == 0 {
        0
    } else if is_space(s[0]) {
        1 + lead_spaces(s.drop_first())
    } else {
        0
    }
}

/// Number of trailing whitespace characters of `s`.
pub open spec fn trail_spaces(s: Seq<char>) -> int
    decreases s.len(),
{
    if s.len() == 0 {
        0
    } else if is_space(s.last()) {
        1 + trail_spaces(s.drop_last())
    } else {
        0
    }
}

/// `s` with leading and trailing whitespace removed, as `str::trim` does.
pub open spec fn trim_spec(s: Seq<char>) -> Seq<char> {
    if lead_spaces(s) == s.len() {
        Seq::empty()
    } else {
        s.subrange(lead_spaces(s), s.len() - trail_spaces(s))
    }
}


proof fn lemma_lead_spaces_at(s: Seq<char>, a: int)
    requires
        0 <= a <= s.len(),
        forall|k: int| 0 <= k < a ==> is_space(s[k]),
        a < s.len() ==> !is_space(s[a]),
    ensures
        lead_spaces(s) == a,
    decreases s.len(),
{
    if s.len() == 0 {
    } else if a == 0 {
        if is_space(s[0]) {
        }
    } else {
        assert(is_space(s[0]));
        lemma_lead_spaces_at(s.drop_first(), a - 1);
    }
}


proof fn lemma_trail_spaces_at(s: Seq<char>, b: int)
    requires
        0 <= b <= s.len(),
        forall|k: int| b <= k < s.len() ==> is_space(s[k]),
        b > 0 ==> !is_space(s[b - 1]),
    ensures
        trail_spaces(s) == s.len() - b,
    decreases s.len(),
{
    if s.len() == 0 {
    } else if b == s.len() {
        if is_space(s.last()) {
            lemma_trail_spaces_at(s.drop_last(), b - 1);
        }
    } else {
        assert(is_space(s.last()));
        lemma_trail_spaces_at(s.drop_last(), b);
    }
}

/// Trim whitespace from both ends, the specification being `trim_spec`.
pub fn str_trim(s: &str) -> (r: &str)
    ensures
        r@ == trim_spec(s@),
{
    let len = s.unicode_len();
    let mut a: usize = 0;
    while a < len && is_space_exec(s.get_char(a))
        invariant
            len == s@.len(),
            a <= len,
            forall|k: int| 0 <= k < a ==> is_space(s@[k]),
        decreases len - a,
    {
        a += 1;
    }
    proof {
        lemma_lead_spaces_at(s@, a as int);
    }
    if a == len {
        let r = s.substring_char(0, 0);
        assert(r@ =~= trim_spec(s@));
        return r;
    }
    let mut b: usize = len;
    while b > a && is_space_exec(s.get_char(b - 1))
        invariant
            len == s@.len(),
            a <= b <= len,
            a < len,
            !is_space(s@[a as int]),
            forall|k: int| b <= k < len ==> is_space(s@[k]),
        decreases b,
    {
        b -= 1;
    }
    proof {
        assert(b > a);
        assert(!is_space(s@[b - 1]));
        lemma_trail_spaces_at(s@, b as int);
    }
    let r = s.substring_char(a, b);
    assert(r@ =~= trim_spec(s@));
    r
}

/// Executable form of `is_space`.
pub fn is_space_exec(c: char) -> (r: bool)
    ensures
        r == is_space(c),
{
    c == ' ' || c == '\t' || c == '\n' || c == '\r' || c == '\u{b}' || c == '\u{c}'
        || c == '\u{85}' || c == '\u{a0}' || c == '\u{1680}'
        || ('\u{2000}' <= c && c <= '\u{200a}') || c == '\u{2028}' || c == '\u{2029}'
        || c == '\u{202f}' || c == '\u{205f}' || c == '\u{3000}'
}

/// ASCII lower-casing of one character; other characters are unchanged.
pub open spec fn lower_char(c: char) -> char {
    if c == 'A' { 'a' } else if c == 'B' { 'b' } else if c == 'C' { 'c' }
    else if c == 'D' { 'd' } else if c == 'E' { 'e' } else if c == 'F' { 'f' }
    else if c == 'G' { 'g' } else if c == 'H' { 'h' } else if c == 'I' { 'i' }
    else if c == 'J' { 'j' } else if c == 'K' { 'k' } else if c == 'L' { 'l' }
    else if c == 'M' { 'm' } else if c == 'N' { 'n' } else if c == 'O' { 'o' }
    else if c == 'P' { 'p' } else if c == 'Q' { 'q' } else if c == 'R' { 'r' }
    else if c == 'S' { 's' } else if c == 'T' { 't' } else if c == 'U' { 'u' }
    else if c == 'V' { 'v' } else if c == 'W' { 'w' } else if c == 'X' { 'x' }
    else if c == 'Y' { 'y' } else if c == 'Z' { 'z' } else { c }
}

/// ASCII lower-casing of a whole sequence.
pub open spec fn lower_seq(s: Seq<char>) -> Seq<char> {
    s.map_values(|c: char| lower_char(c))
}

/// Executable form of `lower_char`.
pub fn lower_char_exec(c: char) -> (r: char)
    ensures
        r == lower_char(c),
{
    match c {
        'A' => 'a', 'B' => 'b', 'C' => 'c', 'D' => 'd', 'E' => 'e', 'F' => 'f',
        'G' => 'g', 'H' => 'h', 'I' => 'i', 'J' => 'j', 'K' => 'k', 'L' => 'l',
        'M' => 'm', 'N' => 'n', 'O' => 'o', 'P' => 'p', 'Q' => 'q', 'R' => 'r',
        'S' => 's', 'T' => 't', 'U' => 'u', 'V' => 'v', 'W' => 'w', 'X' => 'x',
        'Y' => 'y', 'Z' => 'z', _ => c,
    }
}

/// Whether `pat` occurs in `s` at `i` when `s` is compared lower-cased.
fn ci_eq_at(s: &str, s_len: usize, pat: &str, pat_len: usize, i: usize) -> (r: bool)
    requires
        s_len == s@.len(),
        pat_len == pat@.len(),
        i + pat_len <= s_len,
    ensures
        r == matches_at(lower_seq(s@), pat@, i as int),
{
    let mut j: usize = 0;
    while j < pat_len
        invariant
            j <= pat_len,
            s_len == s@.len(),
            pat_len == pat@.len(),
            i + pat_len <= s_len,
            forall|k: int| 0 <= k < j ==> lower_char(s@[i + k]) == pat@[k],
        decreases pat_len - j,
    {
        if lower_char_exec(s.get_char(i + j)) != pat.get_char(j) {
            assert(lower_seq(s@).subrange(i as int, i + pat@.len() as int)[j as int]
                != pat@[j as int]);
            return false;
        }
        j += 1;
    }
    assert(lower_seq(s@).subrange(i as int, i + pat@.len() as int) =~= pat@);
    true
}

/// Substring test against the lower-cased text: holds exactly when `pat`
/// (itself given lower-case) occurs in `s` ignoring ASCII case.
pub fn str_contains_ci(s: &str, pat: &str) -> (r: bool)
    ensures
        r == contains_seq(lower_seq(s@), pat@),
{
    let s_len = s.unicode_len();
    let pat_len = pat.unicode_len();
    if pat_len > s_len {
        assert(forall|i: int| !matches_at(lower_seq(s@), pat@, i));
        return false;
    }
    if pat_len == 0 {
        assert(matches_at(lower_seq(s@), pat@, 0)) by {
            assert(lower_seq(s@).subrange(0, 0) =~= pat@);
        }
        return true;
    }
    let mut i: usize = 0;
    while i <= s_len - pat_len
        invariant
            s_len == s@.len(),
            pat_len == pat@.len(),
            1 <= pat_len <= s_len,
            i <= s_len - pat_len + 1,
            forall|k: int| 0 <= k < i ==> !matches_at(lower_seq(s@), pat@, k),
        decreases s_len - pat_len - i + 1,
    {
        if ci_eq_at(s, s_len, pat, pat_len, i) {
            return true;
        }
        i += 1;
    }
    assert(forall|k: int| matches_at(lower_seq(s@), pat@, k)
        ==> 0 <= k <= s@.len() - pat@.len());
    false
}

/// Index of the first occurrence of `c` in `s`, or the length of `s`.
pub open spec fn find_char(s: Seq<char>, c: char) -> int
    decreases s.len(),
{
    if s.len() == 0 {
        0
    } else if s[0] == c {
        0
    } else {
        1 + find_char(s.drop_first(), c)
    }
}

pub proof fn lemma_find_char(s: Seq<char>, c: char)
    ensures
        0 <= find_char(s, c) <= s.len(),
        forall|k: int| 0 <= k < find_char(s, c) ==> s[k] != c,
        find_char(s, c) < s.len() ==> s[find_char(s, c)] == c,
    decreases s.len(),
{
    if s.len() > 0 && s[0] != c {
        lemma_find_char(s.drop_first(), c);
        assert forall|k: int| 0 <= k < find_char(s, c) implies s[k] != c by {
            if k > 0 {
                assert(s.drop_first()[k - 1] != c);
            }
        }
    }
}

proof fn lemma_find_char_at(s: Seq<char>, c: char, a: int)
    requires
        0 <= a <= s.len(),
        forall|k: int| 0 <= k < a ==> s[k] != c,
        a < s.len() ==> s[a] == c,
    ensures
        find_char(s, c) == a,
    decreases s.len(),
{
    if s.len() > 0 && a > 0 {
        lemma_find_char_at(s.drop_first(), c, a - 1);
    }
}

/// The prefix of `s` before the first occurrence of `c`, or all of `s`.
pub fn str_before_char(s: &str, c: char) -> (r: &str)
    ensures
        r@ == s@.subrange(0, find_char(s@, c)),
{
    let len = s.unicode_len();
    let mut i: usize = 0;
    while i < len && s.get_char(i) != c
        invariant
            len == s@.len(),
            i <= len,
            forall|k: int| 0 <= k < i ==> s@[k] != c,
        decreases len - i,
    {
        i += 1;
    }
    proof {
        lemma_find_char_at(s@, c, i as int);
    }
    s.substring_char(0, i)
}

/// `pat` is a suffix of `s`.
pub open spec fn ends_with_seq(s: Seq<char>, pat: Seq<char>) -> bool {
    pat.len() <= s.len() && s.subrange(s.len() - pat.len(), s.len() as int) == pat
}

/// Suffix test, the specification being `ends_with_seq`.
pub fn str_ends_with(s: &str, pat: &str) -> (r: bool)
    ensures
        r == ends_with_seq(s@, pat@),
{
    let s_len = s.unicode_len();
    let pat_len = pat.unicode_len();
    if pat_len > s_len {
        return false;
    }
    let r = eq_at(s, s_len, pat, pat_len, s_len - pat_len);
    r
}

/// First index at or after `i` that holds a non-whitespace character,
/// or the length of `s`.
pub open spec fn ws_run_end(s: Seq<char>, i: int) -> int
    decreases s.len() - i when i <= s.len()
{
    if 0 <= i && i < s.len() && is_space(s[i]) {
        ws_run_end(s, i + 1)
    } else {
        i
    }
}

/// First index at or after `i` that holds a whitespace character, or
/// the length of `s`.
pub open spec fn nonws_run_end(s: Seq<char>, i: int) -> int
    decreases s.len() - i when i <= s.len()
{
    if 0 <= i && i < s.len() && !is_space(s[i]) {
        nonws_run_end(s, i + 1)
    } else {
        i
    }
}


proof fn lemma_ws_run_end_at(s: Seq<char>, i: int, k: int)
    requires
        0 <= i <= k <= s.len(),
        forall|t: int| i <= t < k ==> is_space(s[t]),
        k < s.len() ==> !is_space(s[k]),
    ensures
        ws_run_end(s, i) == k,
    decreases k - i,
{
    if i < k {
        assert(is_space(s[i]));
        lemma_ws_run_end_at(s, i + 1, k);
    }
}


proof fn lemma_nonws_run_end_at(s: Seq<char>, i: int, k: int)
    requires
        0 <= i <= k <= s.len(),
        forall|t: int| i <= t < k ==> !is_space(s[t]),
        k < s.len() ==> is_space(s[k]),
    ensures
        nonws_run_end(s, i) == k,
    decreases k - i,
{
    if i < k {
        assert(!is_space(s[i]));
        lemma_nonws_run_end_at(s, i + 1, k);
    }
}

/// Executable form of `ws_run_end`.
pub fn skip_ws(s: &str, len: usize, i: usize) -> (k: usize)
    requires
        len == s@.len(),
        i <= len,
    ensures
        k == ws_run_end(s@, i as int),
        i <= k <= len,
{
    let mut k: usize = i;
    while k < len && is_space_exec(s.get_char(k))
        invariant
            len == s@.len(),
            i <= k <= len,
            forall|t: int| i <= t < k ==> is_space(s@[t]),
        decreases len - k,
    {
        k += 1;
    }
    proof {
        lemma_ws_run_end_at(s@, i as int, k as int);
    }
    k
}

/// Executable form of `nonws_run_end`.
pub fn skip_nonws(s: &str, len: usize, i: usize) -> (k: usize)
    requires
        len == s@.len(),
        i <= len,
    ensures
        k == nonws_run_end(s@, i as int),
        i <= k <= len,
{
    let mut k: usize = i;
    while k < len && !is_space_exec(s.get_char(k))
        invariant
            len == s@.len(),
            i <= k <= len,
            forall|t: int| i <= t < k ==> !is_space(s@[t]),
        decreases len - k,
    {
        k += 1;
    }
    proof {
        lemma_nonws_run_end_at(s@, i as int, k as int);
    }
    k
}

/// Some character of `s` equals `c`.
pub open spec fn spec_has_char(s: Seq<char>, c: char) -> bool {
    exists|i: int| 0 <= i < s.len() && s[i] == c
}

/// Some character of `s` is whitespace.
pub open spec fn spec_has_whitespace(s: Seq<char>) -> bool {
    exists|i: int| 0 <= i < s.len() && is_space(s[i])
}

pub fn str_has_char(s: &str, c: char) -> (r: bool)
    ensures
        r == spec_has_char(s@, c),
{
    let len = s.unicode_len();
    let mut i: usize = 0;
    while i < len
        invariant
            len == s@.len(),
            i <= len,
            forall|k: int| 0 <= k < i ==> s@[k] != c,
        decreases len - i,
    {
        if s.get_char(i) == c {
            return true;
        }
        i += 1;
    }
    false
}

pub fn str_has_whitespace(s: &str) -> (r: bool)
    ensures
        r == spec_has_whitespace(s@),
{
    let len = s.unicode_len();
    let mut i: usize = 0;
    while i < len
        invariant
            len == s@.len(),
            i <= len,
            forall|k: int| 0 <= k < i ==> !is_space(s@[k]),
        decreases len - i,
    {
        if is_space_exec(s.get_char(i)) {
            return true;
        }
        i += 1;
    }
    false
}


/// ASCII whitespace bytes, as both `str::trim` and the JSON decoder
/// treat them at the edges of a line.
pub open spec fn is_ws_byte(b: u8) -> bool {
    b == 32 || b == 9 || b == 10 || b == 13 || b == 11 || b == 12
}

/// Number of leading whitespace bytes of `s`.
pub open spec fn lead_ws(s: Seq<u8>) -> int
    decreases s.len(),
{
    if s.len() == 0 {
        0
    } else if is_ws_byte(s[0]) {
        1 + lead_ws(s.drop_first())
    } else {
        0
    }
}

/// Number of trailing whitespace bytes of `s`.
pub open spec fn trail_ws(s: Seq<u8>) -> int
    decreases s.len(),
{
    if s.len() == 0 {
        0
    } else if is_ws_byte(s.last()) {
        1 + trail_ws(s.drop_last())
    } else {
        0
    }
}

/// `s` with leading and trailing ASCII whitespace removed.
pub open spec fn trim_bytes(s: Seq<u8>) -> Seq<u8> {
    if lead_ws(s) == s.len() {
        Seq::empty()
    } else {
        s.subrange(lead_ws(s), s.len() - trail_ws(s))
    }
}

proof fn lemma_lead_ws_at(s: Seq<u8>, a: int)
    requires
        0 <= a <= s.len(),
        forall|k: int| 0 <= k < a ==> is_ws_byte(s[k]),
        a < s.len() ==> !is_ws_byte(s[a]),
    ensures
        lead_ws(s) == a,
    decreases s.len(),
{
    if s.len() > 0 && a > 0 {
        assert(is_ws_byte(s[0]));
        lemma_lead_ws_at(s.drop_first(), a - 1);
    }
}

proof fn lemma_trail_ws_at(s: Seq<u8>, b: int)
    requires
        0 <= b <= s.len(),
        forall|k: int| b <= k < s.len() ==> is_ws_byte(s[k]),
        b > 0 ==> !is_ws_byte(s[b - 1]),
    ensures
        trail_ws(s) == s.len() - b,
    decreases s.len(),
{
    if s.len() > 0 {
        if b == s.len() {
            if is_ws_byte(s.last()) {
                lemma_trail_ws_at(s.drop_last(), b - 1);
            }
        } else {
            assert(is_ws_byte(s.last()));
            lemma_trail_ws_at(s.drop_last(), b);
        }
    }
}

fn is_ws_byte_exec(b: u8) -> (r: bool)
    ensures
        r == is_ws_byte(b),
{
    b == 32 || b == 9 || b == 10 || b == 13 || b == 11 || b == 12
}

/// Trim ASCII whitespace from both ends of a byte slice.
pub fn trim_byte_slice(s: &[u8]) -> (r: &[u8])
    ensures
        r@ == trim_bytes(s@),
{
    let len = s.len();
    let mut a: usize = 0;
    while a < len && is_ws_byte_exec(*vstd::slice::slice_index_get(s, a))
        invariant
            len == s@.len(),
            a <= len,
            forall|k: int| 0 <= k < a ==> is_ws_byte(s@[k]),
        decreases len - a,
    {
        a += 1;
    }
    proof {
        lemma_lead_ws_at(s@, a as int);
    }
    if a == len {
        let r = vstd::slice::slice_subrange(s, 0, 0);
        assert(r@ =~= trim_bytes(s@));
        return r;
    }
    let mut b: usize = len;
    while b > a && is_ws_byte_exec(*vstd::slice::slice_index_get(s, b - 1))
        invariant
            len == s@.len(),
            a <= b <= len,
            a < len,
            !is_ws_byte(s@[a as int]),
            forall|k: int| b <= k < len ==> is_ws_byte(s@[k]),
        decreases b,
    {
        b -= 1;
    }
    proof {
        lemma_trail_ws_at(s@, b as int);
    }
    let r = vstd::slice::slice_subrange(s, a, b);
    assert(r@ =~= trim_bytes(s@));
    r
}

/// Index of the first occurrence of byte `x` in `s`, or the length of
/// `s`.
pub open spec fn find_byte(s: Seq<u8>, x: u8) -> int
    decreases s.len(),
{
    if s.len() == 0 {
        0
    } else if s[0] == x {
        0
    } else {
        1 + find_byte(s.drop_first(), x)
    }
}

pub proof fn lemma_find_byte(s: Seq<u8>, x: u8)
    ensures
        0 <= find_byte(s, x) <= s.len(),
        forall|k: int| 0 <= k < find_byte(s, x) ==> s[k] != x,
        find_byte(s, x) < s.len() ==> s[find_byte(s, x)] == x,
    decreases s.len(),
{
    if s.len() > 0 && s[0] != x {
        lemma_find_byte(s.drop_first(), x);
        assert forall|k: int| 0 <= k < find_byte(s, x) implies s[k] != x by {
            if k > 0 {
                assert(s.drop_first()[k - 1] != x);
            }
        }
    }
}

pub proof fn lemma_find_byte_at(s: Seq<u8>, x: u8, a: int)
    requires
        0 <= a <= s.len(),
        forall|k: int| 0 <= k < a ==> s[k] != x,
        a < s.len() ==> s[a] == x,
    ensures
        find_byte(s, x) == a,
    decreases s.len(),
{
    if s.len() > 0 && a > 0 {
        lemma_find_byte_at(s.drop_first(), x, a - 1);
    }
}

pub open spec fn is_digit(c: char) -> bool {
    '0' <= c && c <= '9'
}

/// End of the run of digits starting at `i`: the first index at or
/// after `i` holding a non-digit, or the length of `u`.
pub open spec fn digit_run_end(u: Seq<char>, i: int) -> int
    decreases u.len() - i when i <= u.len()
{
    if 0 <= i && i < u.len() && is_digit(u[i]) {
        digit_run_end(u, i + 1)
    } else {
        i
    }
}


pub proof fn lemma_digit_run_end(u: Seq<char>, j: int)
    requires
        0 <= j <= u.len(),
    ensures
        j <= digit_run_end(u, j) <= u.len(),
        forall|t: int| j <= t < digit_run_end(u, j) ==> is_digit(u[t]),
        digit_run_end(u, j) < u.len() ==> !is_digit(u[digit_run_end(u, j)]),
    decreases u.len() - j,
{
    if j < u.len() && is_digit(u[j]) {
        lemma_digit_run_end(u, j + 1);
    }
}

pub proof fn lemma_digit_run_end_at(u: Seq<char>, j: int, k: int)
    requires
        0 <= j <= k <= u.len(),
        forall|t: int| j <= t < k ==> is_digit(u[t]),
        k < u.len() ==> !is_digit(u[k]),
    ensures
        digit_run_end(u, j) == k,
    decreases k - j,
{
    if j < k {
        assert(is_digit(u[j]));
        lemma_digit_run_end_at(u, j + 1, k);
    }
}

pub fn is_digit_exec(c: char) -> (r: bool)
    ensures
        r == is_digit(c),
{
    '0' <= c && c <= '9'
}

pub fn digit_run_end_exec(u: &str, len: usize, j: usize) -> (k: usize)
    requires
        len == u@.len(),
        j <= len,
    ensures
        k == digit_run_end(u@, j as int),
        j <= k <= len,
{
    let mut k: usize = j;
    while k < len && is_digit_exec(u.get_char(k))
        invariant
            len == u@.len(),
            j <= k <= len,
            forall|t: int| j <= t < k ==> is_digit(u@[t]),
        decreases len - k,
    {
        k += 1;
    }
    proof {
        lemma_digit_run_end_at(u@, j as int, k as int);
    }
    k
}

/// The character standing for a decimal digit value.
pub open spec fn digit_char(d: int) -> char {
    if d == 0 { '0' } else if d == 1 { '1' } else if d == 2 { '2' }
    else if d == 3 { '3' } else if d == 4 { '4' } else if d == 5 { '5' }
    else if d == 6 { '6' } else if d == 7 { '7' } else if d == 8 { '8' }
    else { '9' }
}

/// Decimal representation of a non-negative integer, most significant
/// digit first, with no leading zeros except for zero itself.
pub open spec fn dec_rep(n: int) -> Seq<char>
    decreases n,
{
    if n < 10 {
        seq![digit_char(n)]
    } else {
        dec_rep(n / 10).push(digit_char(n % 10))
    }
}

fn digit_str(d: u64) -> (r: &'static str)
    requires
        d < 10,
    ensures
        r@ == seq![digit_char(d as int)],
{
    proof {
        reveal_strlit("0"); reveal_strlit("1"); reveal_strlit("2"); reveal_strlit("3");
        reveal_strlit("4"); reveal_strlit("5"); reveal_strlit("6"); reveal_strlit("7");
        reveal_strlit("8"); reveal_strlit("9");
    }
    let r = match d {
        0 => "0", 1 => "1", 2 => "2", 3 => "3", 4 => "4",
        5 => "5", 6 => "6", 7 => "7", 8 => "8", _ => "9",
    };
    assert(r@ =~= seq![digit_char(d as int)]);
    r
}

/// Decimal formatting of a `u64`, the specification being `dec_rep`.
pub fn u64_to_string(n: u64) -> (r: String)
    ensures
        r@ == dec_rep(n as int),
    decreases n,
{
    if n < 10 {
        let mut s = String::new();
        s.append(digit_str(n));
        assert(s@ =~= dec_rep(n as int));
        s
    } else {
        let mut s = u64_to_string(n / 10);
        s.append(digit_str(n % 10));
        assert(s@ =~= dec_rep(n as int));
        s
    }
}

/// Decimal representation of an integer, with a leading minus sign
/// when negative.
pub open spec fn int_rep(n: int) -> Seq<char> {
    if n < 0 {
        seq!['-'] + dec_rep(-n)
    } else {
        dec_rep(n)
    }
}

/// Decimal formatting of an `i32`, the specification being `int_rep`.
pub fn i32_to_string(n: i32) -> (r: String)
    ensures
        r@ == int_rep(n as int),
{
    if n >= 0 {
        u64_to_string(n as u64)
    } else {
        let m = -(n as i64);
        let mut s = String::from_str("-");
        s.append(u64_to_string(m as u64).as_str());
        proof {
            reveal_strlit("-");
            assert(s@ =~= int_rep(n as int));
        }
        s
    }
}

/// Distinct numbers have distinct decimal representations.
pub proof fn lemma_dec_rep_injective(a: int, b: int)
    requires
        0 <= a,
        0 <= b,
        dec_rep(a) == dec_rep(b),
    ensures
        a == b,
    decreases a,
{
    if a < 10 && b < 10 {
        assert(seq![digit_char(a)][0] == digit_char(a));
        assert(seq![digit_char(b)][0] == digit_char(b));
        assert(dec_rep(a)[0] == dec_rep(b)[0]);
        lemma_digit_char_injective(a, b);
    } else if a < 10 {
        lemma_dec_rep_len_ge_two(b);
    } else if b < 10 {
        lemma_dec_rep_len_ge_two(a);
    } else {
        assert(dec_rep(a).last() == digit_char(a % 10));
        assert(dec_rep(b).last() == digit_char(b % 10));
        assert(digit_char(a % 10) == digit_char(b % 10));
        lemma_digit_char_injective(a % 10, b % 10);
        assert(dec_rep(a).drop_last() =~= dec_rep(a / 10));
        assert(dec_rep(b).drop_last() =~= dec_rep(b / 10));
        assert(dec_rep(a / 10) == dec_rep(b / 10));
        lemma_dec_rep_injective(a / 10, b / 10);
        assert(a == 10 * (a / 10) + a % 10);
        assert(b == 10 * (b / 10) + b % 10);
    }
}

proof fn lemma_digit_char_injective(x: int, y: int)
    requires
        0 <= x < 10,
        0 <= y < 10,
        digit_char(x) == digit_char(y),
    ensures
        x == y,
{
}

proof fn lemma_dec_rep_len_ge_two(n: int)
    requires
        n >= 10,
    ensures
        dec_rep(n).len() >= 2,
{
    assert(dec_rep(n / 10).len() >= 1) by {
        lemma_dec_rep_len_ge_one(n / 10);
    }
}

proof fn lemma_dec_rep_len_ge_one(n: int)
    requires
        n >= 0,
    ensures
        dec_rep(n).len() >= 1,
    decreases n,
{
    if n >= 10 {
        lemma_dec_rep_len_ge_one(n / 10);
    }
}

} // verus!
