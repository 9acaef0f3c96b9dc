//! Character classes and text scanning for the single-rule grammar.
//!
//! The specification side describes positions in a rule text by unique
//! characterizations (first non-space character, first open brace, first
//! balanced terminator); the executable side finds them by loops whose
//! invariants establish exactly those characterizations.

use vstd::prelude::*;

verus! {

/// CSS whitespace.
pub open spec fn is_space(c: char) -> bool {
    c == ' ' || c == '\t' || c == '\n' || c == '\r' || c == '\u{c}'
}

/// Characters of at-keyword names and namespace prefixes.
pub open spec fn is_name_char(c: char) -> bool {
    (97 <= c as u32 && c as u32 <= 122) || (65 <= c as u32 && c as u32 <= 90) || (48 <= c as u32
        && c as u32 <= 57) || c == '-' || c == '_'
}

/// Characters allowed inside a url token or a quoted url string.
pub open spec fn is_url_char(c: char) -> bool {
    !is_space(c) && c != ';' && c != '(' && c != ')' && c != '"' && c != '\'' && c != '{' && c
        != '}'
}

/// Executable mirror of [`is_space`].
pub fn space_char(c: char) -> (r: bool)
    ensures
        r == is_space(c),
{
    c == ' ' || c == '\t' || c == '\n' || c == '\r' || c == '\u{c}'
}

/// Executable mirror of [`is_name_char`].
pub fn name_char(c: char) -> (r: bool)
    ensures
        r == is_name_char(c),
{
    let u = c as u32;
    (97 <= u && u <= 122) || (65 <= u && u <= 90) || (48 <= u && u <= 57) || c == '-' || c == '_'
}

/// Executable mirror of [`is_url_char`].
pub fn url_char(c: char) -> (r: bool)
    ensures
        r == is_url_char(c),
{
    !space_char(c) && c != ';' && c != '(' && c != ')' && c != '"' && c != '\'' && c != '{' && c
        != '}'
}

/// The contribution of one character to the brace-nesting depth.
pub open spec fn brace_delta(c: char) -> int {
    if c == '{' {
        1
    } else if c == '}' {
        -1
    } else {
        0
    }
}

/// Brace-nesting depth of a text: open braces minus close braces.
pub open spec fn depth(s: Seq<char>) -> int
    decreases s.len(),
{
    if s.len() == 0 {
        0
    } else {
        depth(s.drop_last()) + brace_delta(s.last())
    }
}

/// Extending a prefix by one character adds that character's delta.
pub proof fn lemma_depth_extend(s: Seq<char>, from: int, p: int)
    requires
        0 <= from <= p < s.len(),
    ensures
        depth(s.subrange(from, p + 1)) == depth(s.subrange(from, p)) + brace_delta(s[p]),
{
    assert(s.subrange(from, p + 1).drop_last() =~= s.subrange(from, p));
    assert(s.subrange(from, p + 1).last() == s[p]);
}

/// A text is brace-balanced: total depth zero and no prefix dips below zero.
pub open spec fn balanced(s: Seq<char>) -> bool {
    depth(s) == 0 && (forall|i: int| 0 <= i <= s.len() ==> depth(#[trigger] s.subrange(0, i)) >= 0)
}

/// `i` is the position of the first non-space character of `s` (or the length).
pub open spec fn is_first_nonspace(s: Seq<char>, i: int) -> bool {
    0 <= i <= s.len() && (forall|j: int| 0 <= j < i ==> is_space(#[trigger] s[j])) && (i == s.len()
        || !is_space(s[i]))
}

/// The position of the first non-space character of `s` (or the length).
pub open spec fn start_of(s: Seq<char>) -> int {
    choose|i: int| is_first_nonspace(s, i)
}

/// The first-non-space position is unique.
pub proof fn lemma_first_nonspace_unique(s: Seq<char>, i: int, j: int)
    requires
        is_first_nonspace(s, i),
        is_first_nonspace(s, j),
    ensures
        i == j,
{
    if i < j {
        assert(is_space(s[i]));
    }
    if j < i {
        assert(is_space(s[j]));
    }
}

/// `e` is one past the last non-space character of `s` (or zero).
pub open spec fn is_end_nonspace(s: Seq<char>, e: int) -> bool {
    0 <= e <= s.len() && (forall|j: int| e <= j < s.len() ==> is_space(#[trigger] s[j])) && (e == 0
        || !is_space(s[e - 1]))
}

/// One past the last non-space character of `s` (or zero).
pub open spec fn endx_of(s: Seq<char>) -> int {
    choose|e: int| is_end_nonspace(s, e)
}

/// The end-non-space position is unique.
pub proof fn lemma_end_nonspace_unique(s: Seq<char>, e: int, f: int)
    requires
        is_end_nonspace(s, e),
        is_end_nonspace(s, f),
    ensures
        e == f,
{
    if e < f {
        assert(is_space(s[f - 1]));
    }
    if f < e {
        assert(is_space(s[e - 1]));
    }
}

/// The text with leading and trailing whitespace removed.
pub open spec fn trim_of(s: Seq<char>) -> Seq<char> {
    if forall|i: int| 0 <= i < s.len() ==> is_space(#[trigger] s[i]) {
        Seq::empty()
    } else {
        s.subrange(start_of(s), endx_of(s))
    }
}

/// Finds the first non-space position.
pub fn first_nonspace(s: &str) -> (i: usize)
    ensures
        is_first_nonspace(s@, i as int),
        i as int == start_of(s@),
{
    let n = s.unicode_len();
    let mut i: usize = 0;
    while i < n
        invariant
            0 <= i <= n,
            n == s@.len(),
            forall|j: int| 0 <= j < i ==> is_space(#[trigger] s@[j]),
        decreases n - i,
    {
        if !space_char(s.get_char(i)) {
            proof {
                lemma_first_nonspace_unique(s@, i as int, start_of(s@));
            }
            return i;
        }
        i += 1;
    }
    proof {
        lemma_first_nonspace_unique(s@, n as int, start_of(s@));
    }
    n
}

/// Finds the position one past the last non-space character.
pub fn end_nonspace(s: &str) -> (e: usize)
    ensures
        is_end_nonspace(s@, e as int),
        e as int == endx_of(s@),
{
    let n = s.unicode_len();
    let mut e: usize = n;
    while e > 0
        invariant
            0 <= e <= n,
            n == s@.len(),
            forall|j: int| e <= j < n ==> is_space(#[trigger] s@[j]),
        decreases e,
    {
        if !space_char(s.get_char(e - 1)) {
            proof {
                lemma_end_nonspace_unique(s@, e as int, endx_of(s@));
            }
            return e;
        }
        e -= 1;
    }
    proof {
        lemma_end_nonspace_unique(s@, 0int, endx_of(s@));
    }
    0
}

/// Trims whitespace from both ends.
pub fn trim(s: &str) -> (r: &str)
    ensures
        r@ == trim_of(s@),
        r@.len() == 0 || (!is_space(r@[0]) && !is_space(r@[r@.len() - 1])),
        trim_of(r@) == r@,
{
    let a = first_nonspace(s);
    let b = end_nonspace(s);
    if a >= b {
        proof {
            assert(forall|i: int| 0 <= i < s@.len() ==> is_space(#[trigger] s@[i])) by {
                if exists|i: int| 0 <= i < s@.len() && !is_space(#[trigger] s@[i]) {
                    let w = choose|i: int| 0 <= i < s@.len() && !is_space(#[trigger] s@[i]);
                    assert(a as int <= w);
                    assert(!is_space(s@[b as int]));
                }
            }
            lemma_trim_of_trimmed(Seq::<char>::empty());
            assert(s@.subrange(0, 0) =~= Seq::<char>::empty());
        }
        s.substring_char(0, 0)
    } else {
        proof {
            assert(!is_space(s@[a as int]));
            assert(!is_space(s@[b - 1]));
            let t = s@.subrange(a as int, b as int);
            assert(t[0] == s@[a as int]);
            assert(t[t.len() - 1] == s@[b - 1]);
            lemma_trim_of_trimmed(t);
            assert(!(forall|i: int| 0 <= i < s@.len() ==> is_space(#[trigger] s@[i]))) by {
                assert(0 <= a < s@.len() && !is_space(s@[a as int]));
            }
        }
        s.substring_char(a, b)
    }
}

/// `i` is the first non-space position at or after `from` (or the length).
pub open spec fn is_first_nonspace_from(s: Seq<char>, from: int, i: int) -> bool {
    from <= i <= s.len() && (forall|j: int| from <= j < i ==> is_space(#[trigger] s[j])) && (i
        == s.len() || !is_space(s[i]))
}

/// The first non-space position at or after `from` (or the length).
pub open spec fn nonspace_from_of(s: Seq<char>, from: int) -> int {
    choose|i: int| is_first_nonspace_from(s, from, i)
}

/// The first-non-space-from position is unique.
pub proof fn lemma_first_nonspace_from_unique(s: Seq<char>, from: int, i: int, j: int)
    requires
        is_first_nonspace_from(s, from, i),
        is_first_nonspace_from(s, from, j),
    ensures
        i == j,
{
    if i < j {
        assert(is_space(s[i]));
    }
    if j < i {
        assert(is_space(s[j]));
    }
}

/// Finds the first non-space position at or after `from`.
pub fn first_nonspace_from(s: &str, from: usize) -> (i: usize)
    requires
        from <= s@.len(),
    ensures
        is_first_nonspace_from(s@, from as int, i as int),
        i as int == nonspace_from_of(s@, from as int),
        from <= i <= s@.len(),
{
    let n = s.unicode_len();
    let mut i: usize = from;
    while i < n
        invariant
            from <= i <= n,
            n == s@.len(),
            forall|j: int| from <= j < i ==> is_space(#[trigger] s@[j]),
        decreases n - i,
    {
        if !space_char(s.get_char(i)) {
            proof {
                lemma_first_nonspace_from_unique(
                    s@,
                    from as int,
                    i as int,
                    nonspace_from_of(s@, from as int),
                );
            }
            return i;
        }
        i += 1;
    }
    proof {
        lemma_first_nonspace_from_unique(
            s@,
            from as int,
            n as int,
            nonspace_from_of(s@, from as int),
        );
    }
    n
}

/// `k` is the end of the run of name characters starting at `from`.
pub open spec fn is_name_run_end(s: Seq<char>, from: int, k: int) -> bool {
    from <= k <= s.len() && (forall|j: int| from <= j < k ==> is_name_char(#[trigger] s[j])) && (k
        == s.len() || !is_name_char(s[k]))
}

/// The end of the run of name characters starting at `from`.
pub open spec fn name_end_of(s: Seq<char>, from: int) -> int {
    choose|k: int| is_name_run_end(s, from, k)
}

/// The name-run end is unique.
pub proof fn lemma_name_run_end_unique(s: Seq<char>, from: int, i: int, j: int)
    requires
        is_name_run_end(s, from, i),
        is_name_run_end(s, from, j),
    ensures
        i == j,
{
    if i < j {
        assert(is_name_char(s[i]));
    }
    if j < i {
        assert(is_name_char(s[j]));
    }
}

/// `i` is the first occurrence of `c` at or after `from` in `s`.
pub open spec fn is_first_at(s: Seq<char>, from: int, c: char, i: int) -> bool {
    from <= i < s.len() && s[i] == c && (forall|j: int| from <= j < i ==> #[trigger] s[j] != c)
}

/// The first occurrence of `c` at or after `from`, if any.
pub open spec fn find_from(s: Seq<char>, from: int, c: char) -> Option<int> {
    if exists|i: int| is_first_at(s, from, c, i) {
        Some(choose|i: int| is_first_at(s, from, c, i))
    } else {
        None
    }
}

/// First occurrences are unique.
pub proof fn lemma_first_at_unique(s: Seq<char>, from: int, c: char, i: int, j: int)
    requires
        is_first_at(s, from, c, i),
        is_first_at(s, from, c, j),
    ensures
        i == j,
{
    if i < j {
        assert(s[i] != c);
    }
    if j < i {
        assert(s[j] != c);
    }
}

/// Finds the first occurrence of `c` at or after `from`.
pub fn find_char(s: &str, from: usize, c: char) -> (r: Option<usize>)
    requires
        from <= s@.len(),
    ensures
        match r {
            Some(i) => from <= i < s@.len() && i as int == find_from(s@, from as int, c)->Some_0
                && find_from(s@, from as int, c) is Some,
            None => find_from(s@, from as int, c) is None,
        },
{
    let n = s.unicode_len();
    let mut i: usize = from;
    while i < n
        invariant
            from <= i <= n,
            n == s@.len(),
            forall|j: int| from <= j < i ==> #[trigger] s@[j] != c,
        decreases n - i,
    {
        if s.get_char(i) == c {
            proof {
                assert(is_first_at(s@, from as int, c, i as int));
                lemma_first_at_unique(
                    s@,
                    from as int,
                    c,
                    i as int,
                    choose|k: int| is_first_at(s@, from as int, c, k),
                );
            }
            return Some(i);
        }
        i += 1;
    }
    proof {
        if exists|k: int| is_first_at(s@, from as int, c, k) {
            let k = choose|k: int| is_first_at(s@, from as int, c, k);
            assert(s@[k] != c);
        }
    }
    None
}

/// Scans the run of name characters starting at `from`.
pub fn scan_name_end(s: &str, from: usize) -> (i: usize)
    requires
        from <= s@.len(),
    ensures
        from <= i <= s@.len(),
        is_name_run_end(s@, from as int, i as int),
        i as int == name_end_of(s@, from as int),
{
    let n = s.unicode_len();
    let mut i: usize = from;
    while i < n
        invariant
            from <= i <= n,
            n == s@.len(),
            forall|j: int| from <= j < i ==> is_name_char(#[trigger] s@[j]),
        decreases n - i,
    {
        if !name_char(s.get_char(i)) {
            proof {
                lemma_name_run_end_unique(s@, from as int, i as int, name_end_of(s@, from as int));
            }
            return i;
        }
        i += 1;
    }
    proof {
        lemma_name_run_end_unique(s@, from as int, n as int, name_end_of(s@, from as int));
    }
    n
}

/// Whether `s[lo..hi]` is free of the structure characters `;`, `{`, `}`.
pub fn all_plain_chars(s: &str, lo: usize, hi: usize) -> (b: bool)
    requires
        lo <= hi <= s@.len(),
    ensures
        b == (forall|j: int|
            lo <= j < hi ==> #[trigger] s@[j] != ';' && s@[j] != '{' && s@[j] != '}'),
{
    let mut i: usize = lo;
    while i < hi
        invariant
            lo <= i <= hi <= s@.len(),
            forall|j: int| lo <= j < i ==> #[trigger] s@[j] != ';' && s@[j] != '{' && s@[j] != '}',
        decreases hi - i,
    {
        let c = s.get_char(i);
        if c == ';' || c == '{' || c == '}' {
            return false;
        }
        i += 1;
    }
    true
}

/// A first-non-space position always exists.
pub proof fn lemma_first_nonspace_exists(s: Seq<char>)
    ensures
        exists|i: int| is_first_nonspace(s, i),
    decreases s.len(),
{
    if s.len() == 0 {
        assert(is_first_nonspace(s, 0));
    } else if !is_space(s[0]) {
        assert(is_first_nonspace(s, 0));
    } else {
        lemma_first_nonspace_exists(s.drop_first());
        let i = choose|i: int| is_first_nonspace(s.drop_first(), i);
        assert(is_first_nonspace(s, i + 1)) by {
            assert(forall|j: int|
                0 <= j < i + 1 ==> is_space(#[trigger] s[j]) || !is_space(s.drop_first()[j - 1]));
        }
    }
}

/// An end-non-space position always exists.
pub proof fn lemma_end_nonspace_exists(s: Seq<char>)
    ensures
        exists|e: int| is_end_nonspace(s, e),
    decreases s.len(),
{
    if s.len() == 0 {
        assert(is_end_nonspace(s, 0));
    } else if !is_space(s[s.len() - 1]) {
        assert(is_end_nonspace(s, s.len() as int));
    } else {
        lemma_end_nonspace_exists(s.drop_last());
        let e = choose|e: int| is_end_nonspace(s.drop_last(), e);
        assert(is_end_nonspace(s, e)) by {
            assert(forall|j: int|
                e <= j < s.len() ==> is_space(#[trigger] s[j]) || !is_space(s.drop_last()[j]));
        }
    }
}

/// A non-empty text that trims to itself carries no whitespace at its ends.
pub proof fn lemma_trimmed_ends(s: Seq<char>)
    requires
        trim_of(s) == s,
        s.len() > 0,
    ensures
        !is_space(s[0]),
        !is_space(s[s.len() - 1]),
{
    assert(!(forall|i: int| 0 <= i < s.len() ==> is_space(#[trigger] s[i]))) by {
        if forall|i: int| 0 <= i < s.len() ==> is_space(#[trigger] s[i]) {
            assert(trim_of(s).len() == 0);
        }
    }
    lemma_first_nonspace_exists(s);
    lemma_end_nonspace_exists(s);
    let a = start_of(s);
    let e = endx_of(s);
    assert(is_first_nonspace(s, a));
    assert(is_end_nonspace(s, e));
    assert(s.subrange(a, e) == s);
    assert(e - a == s.len());
    assert(a == 0 && e == s.len());
}

/// A text whose ends carry no whitespace trims to itself.
pub proof fn lemma_trim_of_trimmed(s: Seq<char>)
    requires
        s.len() == 0 || (!is_space(s[0]) && !is_space(s[s.len() - 1])),
    ensures
        trim_of(s) == s,
{
    if s.len() == 0 {
        assert(trim_of(s) =~= s);
    } else {
        assert(is_first_nonspace(s, 0));
        lemma_first_nonspace_unique(s, 0, start_of(s));
        assert(is_end_nonspace(s, s.len() as int));
        lemma_end_nonspace_unique(s, s.len() as int, endx_of(s));
        assert(!is_space(s[0]));
        assert(trim_of(s) =~= s);
    }
}

/// Whether `s[lo..hi]` equals the text `pat`.
pub fn eq_range(s: &str, lo: usize, hi: usize, pat: &str) -> (b: bool)
    requires
        lo <= hi <= s@.len(),
    ensures
        b == (s@.subrange(lo as int, hi as int) == pat@),
{
    let m = pat.unicode_len();
    if hi - lo != m {
        return false;
    }
    let mut i: usize = 0;
    while i < m
        invariant
            0 <= i <= m,
            lo <= hi <= s@.len(),
            hi - lo == m,
            m == pat@.len(),
            forall|j: int| 0 <= j < i ==> s@[lo + j] == pat@[j],
        decreases m - i,
    {
        if s.get_char(lo + i) != pat.get_char(i) {
            proof {
                if s@.subrange(lo as int, hi as int) == pat@ {
                    assert(s@.subrange(lo as int, hi as int)[i as int] == pat@[i as int]);
                }
            }
            return false;
        }
        i += 1;
    }
    proof {
        assert(s@.subrange(lo as int, hi as int) =~= pat@);
    }
    true
}

/// Whether every character of `s[lo..hi]` satisfies the url character class.
pub fn all_url_chars(s: &str, lo: usize, hi: usize) -> (b: bool)
    requires
        lo <= hi <= s@.len(),
    ensures
        b == (forall|j: int| lo <= j < hi ==> is_url_char(#[trigger] s@[j])),
{
    let mut i: usize = lo;
    while i < hi
        invariant
            lo <= i <= hi <= s@.len(),
            forall|j: int| lo <= j < i ==> is_url_char(#[trigger] s@[j]),
        decreases hi - i,
    {
        if !url_char(s.get_char(i)) {
            return false;
        }
        i += 1;
    }
    true
}

/// Checks that `s[lo..hi]` is brace-balanced.
pub fn check_balanced(s: &str, lo: usize, hi: usize) -> (b: bool)
    requires
        lo <= hi <= s@.len(),
    ensures
        b == balanced(s@.subrange(lo as int, hi as int)),
{
    let ghost t = s@.subrange(lo as int, hi as int);
    let mut i: usize = lo;
    let mut d: usize = 0;
    proof {
        assert(t.subrange(0, 0) =~= Seq::<char>::empty());
    }
    while i < hi
        invariant
            lo <= i <= hi <= s@.len(),
            t == s@.subrange(lo as int, hi as int),
            d <= i - lo,
            d as int == depth(t.subrange(0, i - lo)),
            forall|q: int| 0 <= q <= i - lo ==> depth(#[trigger] t.subrange(0, q)) >= 0,
        decreases hi - i,
    {
        let c = s.get_char(i);
        proof {
            lemma_depth_extend(t, 0, i - lo);
            assert(t[i - lo] == s@[i as int]);
        }
        if c == '{' {
            d += 1;
        } else if c == '}' {
            if d == 0 {
                proof {
                    assert(depth(t.subrange(0, i + 1 - lo)) < 0);
                    assert(!balanced(t));
                }
                return false;
            }
            d -= 1;
        }
        i += 1;
    }
    proof {
        assert(t.subrange(0, hi - lo) =~= t);
    }
    d == 0
}

/// `p` is a terminator of the rule starting at `from`: the depth returns to
/// zero at a `;` or `}` without ever having dipped below zero.
pub open spec fn is_term(s: Seq<char>, from: int, p: int) -> bool {
    from < p <= s.len() && (s[p - 1] == ';' || s[p - 1] == '}') && depth(s.subrange(from, p)) == 0
        && (forall|q: int| from <= q <= p ==> depth(#[trigger] s.subrange(from, q)) >= 0)
}

/// `p` is the first terminator of the rule starting at `from`.
pub open spec fn is_first_term(s: Seq<char>, from: int, p: int) -> bool {
    is_term(s, from, p) && (forall|q: int| from < q < p ==> !is_term(s, from, q))
}

/// The end (exclusive) of the rule starting at `from`, if it has one.
pub open spec fn extent_of(s: Seq<char>, from: int) -> Option<int> {
    if exists|p: int| is_first_term(s, from, p) {
        Some(choose|p: int| is_first_term(s, from, p))
    } else {
        None
    }
}

/// First terminators are unique.
pub proof fn lemma_first_term_unique(s: Seq<char>, from: int, i: int, j: int)
    requires
        is_first_term(s, from, i),
        is_first_term(s, from, j),
    ensures
        i == j,
{
    if i < j {
        assert(!is_term(s, from, i));
    }
    if j < i {
        assert(!is_term(s, from, j));
    }
}

/// Finds the end of the rule starting at `from`.
pub fn find_extent(s: &str, from: usize) -> (r: Option<usize>)
    requires
        from <= s@.len(),
    ensures
        match r {
            Some(p) => from < p <= s@.len() && is_first_term(s@, from as int, p as int)
                && extent_of(s@, from as int) == Some(p as int),
            None => extent_of(s@, from as int) is None,
        },
{
    let n = s.unicode_len();
    let mut i: usize = from;
    let mut d: usize = 0;
    proof {
        assert(s@.subrange(from as int, from as int) =~= Seq::<char>::empty());
    }
    while i < n
        invariant
            from <= i <= n,
            n == s@.len(),
            d <= i - from,
            d as int == depth(s@.subrange(from as int, i as int)),
            forall|q: int|
                from <= q <= i ==> depth(#[trigger] s@.subrange(from as int, q)) >= 0,
            forall|q: int| from < q <= i ==> !is_term(s@, from as int, q),
        decreases n - i,
    {
        let c = s.get_char(i);
        proof {
            lemma_depth_extend(s@, from as int, i as int);
        }
        if c == '{' {
            d += 1;
            proof {
                assert(!is_term(s@, from as int, i + 1));
            }
        } else if c == '}' {
            if d == 0 {
                proof {
                    assert(depth(s@.subrange(from as int, i + 1)) < 0);
                    assert forall|p: int| !is_first_term(s@, from as int, p) by {
                        if is_term(s@, from as int, p) {
                            assert(depth(s@.subrange(from as int, i + 1)) >= 0);
                        }
                    }
                }
                return None;
            }
            d -= 1;
            if d == 0 {
                proof {
                    assert(is_first_term(s@, from as int, i + 1));
                    lemma_first_term_unique(
                        s@,
                        from as int,
                        i + 1,
                        choose|p: int| is_first_term(s@, from as int, p),
                    );
                }
                return Some(i + 1);
            }
            proof {
                assert(!is_term(s@, from as int, i + 1));
            }
        } else if c == ';' && d == 0 {
            proof {
                assert(is_first_term(s@, from as int, i + 1));
                lemma_first_term_unique(
                    s@,
                    from as int,
                    i + 1,
                    choose|p: int| is_first_term(s@, from as int, p),
                );
            }
            return Some(i + 1);
        } else {
            proof {
                assert(!is_term(s@, from as int, i + 1));
            }
        }
        i += 1;
    }
    proof {
        if exists|p: int| is_first_term(s@, from as int, p) {
            let p = choose|p: int| is_first_term(s@, from as int, p);
            assert(!is_term(s@, from as int, p));
        }
    }
    None
}

} // verus!
