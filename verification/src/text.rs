//! Character-level scanning over text: case-insensitive label matching,
//! line-end and newline-run scanning, whitespace trimming, and the
//! colon-prefix normalization applied to location values.

use vstd::prelude::*;

verus! {

/// Whitespace as trimmed from extracted field values: the Unicode
/// White_Space characters.
pub open spec fn is_space(c: char) -> bool {
    let u = c as u32;
    u == 0x20 || (0x09 <= u && u <= 0x0d) || u == 0x85 || u == 0xa0 || u == 0x1680 || (0x2000
        <= u && u <= 0x200a) || u == 0x2028 || u == 0x2029 || u == 0x202f || u == 0x205f || u
        == 0x3000
}

pub fn is_space_exec(c: char) -> (r: bool)
    ensures
        r == is_space(c),
{
    let u = c as u32;
    u == 0x20 || (0x09 <= u && u <= 0x0d) || u == 0x85 || u == 0xa0 || u == 0x1680 || (0x2000
        <= u && u <= 0x200a) || u == 0x2028 || u == 0x2029 || u == 0x202f || u == 0x205f || u
        == 0x3000
}

/// Does text character `t` match pattern character `p`, where `p` is taken
/// case-insensitively when it is an ASCII lowercase letter?
pub open spec fn matches_ci(t: char, p: char) -> bool {
    t == p || (97 <= p as u32 <= 122 && t as u32 + 32 == p as u32)
}

pub fn char_matches(t: char, p: char) -> (r: bool)
    ensures
        r == matches_ci(t, p),
{
    if t == p {
        true
    } else {
        let tu = t as u32;
        let pu = p as u32;
        if 97 <= pu && pu <= 122 {
            tu == pu - 32
        } else {
            false
        }
    }
}

/// The pattern `pat` matches case-insensitively at position `i` of `text`.
pub open spec fn label_at(text: Seq<char>, pat: Seq<char>, i: int) -> bool {
    &&& 0 <= i
    &&& i + pat.len() <= text.len()
    &&& forall|k: int| 0 <= k < pat.len() ==> matches_ci(text[i + k], pat[k])
}

pub fn match_at(text: &str, pat: &str, i: usize) -> (r: bool)
    requires
        i <= text@.len(),
    ensures
        r == label_at(text@, pat@, i as int),
{
    let n = text.unicode_len();
    let m = pat.unicode_len();
    if m > n - i {
        return false;
    }
    let mut k: usize = 0;
    while k < m
        invariant
            k <= m,
            m == pat@.len(),
            n == text@.len(),
            i + m <= n,
            forall|q: int| 0 <= q < k ==> matches_ci(text@[i + q], pat@[q]),
        decreases m - k,
    {
        if !char_matches(text.get_char(i + k), pat.get_char(k)) {
            assert(!matches_ci(text@[i + k as int], pat@[k as int]));
            return false;
        }
        k += 1;
    }
    true
}

/// The first position `>= from` holding a newline, or the text length.
pub open spec fn line_end_spec(text: Seq<char>, from: int) -> int
    decreases text.len() - from,
{
    if from >= text.len() {
        text.len() as int
    } else if text[from] == '\n' {
        from
    } else {
        line_end_spec(text, from + 1)
    }
}

pub proof fn lemma_line_end(text: Seq<char>, from: int)
    requires
        0 <= from <= text.len(),
    ensures
        from <= line_end_spec(text, from) <= text.len(),
        forall|j: int| from <= j < line_end_spec(text, from) ==> text[j] != '\n',
        line_end_spec(text, from) < text.len() ==> text[line_end_spec(text, from)] == '\n',
    decreases text.len() - from,
{
    if from < text.len() && text[from] != '\n' {
        lemma_line_end(text, from + 1);
    }
}

pub fn line_end(text: &str, from: usize) -> (r: usize)
    requires
        from <= text@.len(),
    ensures
        r == line_end_spec(text@, from as int),
{
    let n = text.unicode_len();
    let mut j = from;
    while j < n
        invariant
            from <= j <= n,
            n == text@.len(),
            line_end_spec(text@, from as int) == line_end_spec(text@, j as int),
        decreases n - j,
    {
        if text.get_char(j) == '\n' {
            return j;
        }
        j += 1;
    }
    n
}

/// The first position `>= from` holding something other than a newline, or
/// the text length.
pub open spec fn skip_newlines_spec(text: Seq<char>, from: int) -> int
    decreases text.len() - from,
{
    if from >= text.len() {
        text.len() as int
    } else if text[from] == '\n' {
        skip_newlines_spec(text, from + 1)
    } else {
        from
    }
}

pub proof fn lemma_skip_newlines(text: Seq<char>, from: int)
    requires
        0 <= from <= text.len(),
    ensures
        from <= skip_newlines_spec(text, from) <= text.len(),
    decreases text.len() - from,
{
    if from < text.len() && text[from] == '\n' {
        lemma_skip_newlines(text, from + 1);
    }
}

pub fn skip_newlines(text: &str, from: usize) -> (r: usize)
    requires
        from <= text@.len(),
    ensures
        r == skip_newlines_spec(text@, from as int),
{
    let n = text.unicode_len();
    let mut j = from;
    while j < n
        invariant
            from <= j <= n,
            n == text@.len(),
            skip_newlines_spec(text@, from as int) == skip_newlines_spec(text@, j as int),
        decreases n - j,
    {
        if text.get_char(j) != '\n' {
            return j;
        }
        j += 1;
    }
    n
}

/// The earliest position `>= from` where `pat` matches case-insensitively,
/// if any.
pub open spec fn find_pat_spec(text: Seq<char>, pat: Seq<char>, from: int) -> Option<int>
    decreases text.len() - from,
{
    if from + pat.len() > text.len() {
        None
    } else if label_at(text, pat, from) {
        Some(from)
    } else {
        find_pat_spec(text, pat, from + 1)
    }
}

pub proof fn lemma_find_pat(text: Seq<char>, pat: Seq<char>, from: int)
    requires
        0 <= from,
    ensures
        find_pat_spec(text, pat, from) matches Some(p) ==> from <= p && label_at(text, pat, p)
            && forall|j: int| from <= j < p ==> !label_at(text, pat, j),
        find_pat_spec(text, pat, from) is None ==> forall|j: int|
            from <= j ==> !label_at(text, pat, j),
    decreases text.len() - from,
{
    if from + pat.len() > text.len() {
        assert forall|j: int| from <= j implies !label_at(text, pat, j) by {}
    } else if !label_at(text, pat, from) {
        lemma_find_pat(text, pat, from + 1);
    }
}

pub fn find_pat(text: &str, pat: &str, from: usize) -> (r: Option<usize>)
    requires
        from <= text@.len(),
    ensures
        match r {
            Some(p) => find_pat_spec(text@, pat@, from as int) == Some(p as int),
            None => find_pat_spec(text@, pat@, from as int) is None,
        },
{
    let n = text.unicode_len();
    let m = pat.unicode_len();
    if m > n {
        return None;
    }
    let mut j = from;
    while j <= n - m
        invariant
            from <= j,
            j <= n + 1,
            m <= n,
            n == text@.len(),
            m == pat@.len(),
            find_pat_spec(text@, pat@, from as int) == find_pat_spec(text@, pat@, j as int),
        decreases n - j,
    {
        if match_at(text, pat, j) {
            return Some(j);
        }
        j += 1;
    }
    None
}

/// The first position `>= from` of `s` holding a non-space character, or the
/// length of `s`.
pub open spec fn trim_start_idx(s: Seq<char>, from: int) -> int
    decreases s.len() - from,
{
    if from >= s.len() {
        s.len() as int
    } else if is_space(s[from]) {
        trim_start_idx(s, from + 1)
    } else {
        from
    }
}

/// The position just past the last non-space character of `s[..upto]`, or 0.
pub open spec fn trim_end_idx(s: Seq<char>, upto: int) -> int
    decreases upto,
{
    if upto <= 0 {
        0
    } else if is_space(s[upto - 1]) {
        trim_end_idx(s, upto - 1)
    } else {
        upto
    }
}

/// `s` with leading and trailing whitespace removed.
pub open spec fn trim_spec(s: Seq<char>) -> Seq<char> {
    let lo = trim_start_idx(s, 0);
    let hi = trim_end_idx(s, s.len() as int);
    if lo >= hi {
        Seq::empty()
    } else {
        s.subrange(lo, hi)
    }
}

pub proof fn lemma_trim_end_bounds(s: Seq<char>, upto: int)
    requires
        0 <= upto,
    ensures
        0 <= trim_end_idx(s, upto) <= upto,
    decreases upto,
{
    if upto > 0 && is_space(s[upto - 1]) {
        lemma_trim_end_bounds(s, upto - 1);
    }
}

/// Returns the substring of `text` between `start` and `end`, trimmed of
/// surrounding whitespace, as an owned string.
pub fn trim_substr(text: &str, start: usize, end: usize) -> (r: String)
    requires
        start <= end <= text@.len(),
    ensures
        r@ == trim_spec(text@.subrange(start as int, end as int)),
{
    let ghost s = text@.subrange(start as int, end as int);
    let mut lo = start;
    while lo < end && is_space_exec(text.get_char(lo))
        invariant
            start <= lo <= end <= text@.len(),
            s == text@.subrange(start as int, end as int),
            trim_start_idx(s, 0) == trim_start_idx(s, lo - start),
        decreases end - lo,
    {
        assert(s[lo - start] == text@[lo as int]);
        lo += 1;
    }
    assert(trim_start_idx(s, 0) == lo - start) by {
        if lo < end {
            assert(s[lo - start] == text@[lo as int]);
        }
    }
    let mut hi = end;
    while hi > lo && is_space_exec(text.get_char(hi - 1))
        invariant
            start <= lo <= hi <= end,
            end <= text@.len(),
            s == text@.subrange(start as int, end as int),
            trim_end_idx(s, end - start) == trim_end_idx(s, hi - start),
        decreases hi,
    {
        assert(s[hi - start - 1] == text@[hi - 1]);
        hi -= 1;
    }
    proof {
        lemma_trim_end_bounds(s, hi - start);
    }
    if lo >= hi {
        assert(trim_spec(s) =~= Seq::<char>::empty()) by {
            if hi > lo {
            } else {
                assert(trim_end_idx(s, end - start) == trim_end_idx(s, hi - start));
                assert(trim_end_idx(s, hi - start) <= hi - start);
            }
        }
        String::new()
    } else {
        assert(s[hi - start - 1] == text@[hi - 1]);
        assert(trim_end_idx(s, end - start) == hi - start);
        let piece = text.substring_char(lo, hi);
        let out = piece.to_owned();
        assert(out@ =~= trim_spec(s));
        out
    }
}

/// The index of the last colon in `s`, or -1 when there is none.
pub open spec fn last_colon(s: Seq<char>) -> int
    decreases s.len(),
{
    if s.len() == 0 {
        -1
    } else if s.last() == ':' {
        s.len() - 1
    } else {
        last_colon(s.drop_last())
    }
}

pub proof fn lemma_last_colon_skip(s: Seq<char>, j: int)
    requires
        0 <= j <= s.len(),
        forall|k: int| j <= k < s.len() ==> s[k] != ':',
    ensures
        last_colon(s) == last_colon(s.take(j)),
    decreases s.len() - j,
{
    if j == s.len() {
        assert(s.take(j) =~= s);
    } else {
        assert(s.last() != ':');
        assert(s.drop_last() =~= s.take(s.len() - 1));
        lemma_last_colon_skip(s.take(s.len() - 1), j);
        assert(s.take(s.len() - 1).take(j) =~= s.take(j));
    }
}

/// A location value with its leading category prefix removed: everything
/// after the last colon, trimmed; the value itself when there is no colon.
pub open spec fn normalize_loc_spec(s: Seq<char>) -> Seq<char> {
    let c = last_colon(s);
    if c < 0 {
        s
    } else {
        trim_spec(s.subrange(c + 1, s.len() as int))
    }
}

pub fn normalize_loc(v: &str) -> (r: String)
    ensures
        r@ == normalize_loc_spec(v@),
{
    let n = v.unicode_len();
    let mut j = n;
    while j > 0
        invariant
            j <= n,
            n == v@.len(),
            forall|k: int| j <= k < n ==> v@[k] != ':',
        decreases j,
    {
        if v.get_char(j - 1) == ':' {
            proof {
                lemma_last_colon_skip(v@, j as int);
                assert(v@.take(j as int).last() == v@[j - 1]);
            }
            assert(last_colon(v@) == j - 1);
            return trim_substr(v, j, n);
        }
        j -= 1;
    }
    proof {
        lemma_last_colon_skip(v@, 0);
        assert(v@.take(0) =~= Seq::<char>::empty());
    }
    assert(last_colon(v@) == -1);
    v.to_owned()
}

} // verus!
