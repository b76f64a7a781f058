//! Character-level utilities on `&str` and their `Seq<char>` models.
//!
//! Every exec function here is proved against a spec function over the
//! string's view, so the extraction layer can state its contracts purely
//! over `Seq<char>`.

use vstd::prelude::*;
use vstd::string::StrSliceExecFns;

verus! {

/// Blank characters stripped by trimming: the ASCII whitespace set.
pub open spec fn is_space(c: char) -> bool {
    c == ' ' || c == '\t' || c == '\n' || c == '\r' || c == '\u{c}'
}

/// ASCII decimal digit.
pub open spec fn is_digit_char(c: char) -> bool {
    '0' <= c && c <= '9'
}

/// Numeric value of an ASCII digit.
pub open spec fn digit_val(c: char) -> int {
    c as int - '0' as int
}

fn space_char(c: char) -> (b: bool)
    ensures
        b == is_space(c),
{
    c == ' ' || c == '\t' || c == '\n' || c == '\r' || c == '\u{c}'
}

fn digit_char(c: char) -> (b: bool)
    ensures
        b == is_digit_char(c),
{
    '0' <= c && c <= '9'
}

/// The sequence with its leading blanks removed.
pub open spec fn trim_start_spec(s: Seq<char>) -> Seq<char>
    decreases s.len(),
{
    if s.len() > 0 && is_space(s[0]) {
        trim_start_spec(s.drop_first())
    } else {
        s
    }
}

/// The sequence with its trailing blanks removed.
pub open spec fn trim_end_spec(s: Seq<char>) -> Seq<char>
    decreases s.len(),
{
    if s.len() > 0 && is_space(s.last()) {
        trim_end_spec(s.drop_last())
    } else {
        s
    }
}

/// The sequence with blanks removed from both ends.
pub open spec fn trim_spec(s: Seq<char>) -> Seq<char> {
    trim_end_spec(trim_start_spec(s))
}

pub proof fn lemma_trim_start_skip(s: Seq<char>, i: int)
    requires
        0 <= i <= s.len(),
        forall|j: int| 0 <= j < i ==> is_space(s[j]),
        i == s.len() || !is_space(s[i]),
    ensures
        trim_start_spec(s) == s.skip(i),
    decreases i,
{
    if i == 0 {
        assert(s.skip(0) =~= s);
    } else {
        let t = s.drop_first();
        assert(forall|j: int| 0 <= j < i - 1 ==> is_space(#[trigger] t[j]));
        lemma_trim_start_skip(t, i - 1);
        assert(t.skip(i - 1) =~= s.skip(i));
    }
}

pub proof fn lemma_trim_end_take(s: Seq<char>, i: int)
    requires
        0 <= i <= s.len(),
        forall|j: int| i <= j < s.len() ==> is_space(s[j]),
        i == 0 || !is_space(s[i - 1]),
    ensures
        trim_end_spec(s) == s.take(i),
    decreases s.len() - i,
{
    if i == s.len() {
        assert(s.take(i) =~= s);
    } else {
        let t = s.drop_last();
        assert(is_space(s.last()));
        assert(forall|j: int| i <= j < t.len() ==> is_space(#[trigger] t[j]));
        lemma_trim_end_take(t, i);
        assert(t.take(i) =~= s.take(i));
    }
}

/// All characters of a trimmed sequence: no leading or trailing blanks.
pub proof fn lemma_trim_start_len(s: Seq<char>)
    ensures
        trim_start_spec(s).len() <= s.len(),
    decreases s.len(),
{
    if s.len() > 0 && is_space(s[0]) {
        lemma_trim_start_len(s.drop_first());
    }
}

pub proof fn lemma_trim_end_len(s: Seq<char>)
    ensures
        trim_end_spec(s).len() <= s.len(),
    decreases s.len(),
{
    if s.len() > 0 && is_space(s.last()) {
        lemma_trim_end_len(s.drop_last());
    }
}

/// A trim-fixed non-empty sequence neither starts nor ends with a blank.
pub proof fn lemma_trim_fixed_ends(s: Seq<char>)
    requires
        trim_spec(s) == s,
        s.len() > 0,
    ensures
        !is_space(s[0]),
        !is_space(s[s.len() - 1]),
        trim_start_spec(s) == s,
        trim_end_spec(s) == s,
{
    if is_space(s[0]) {
        lemma_trim_start_len(s.drop_first());
        lemma_trim_end_len(trim_start_spec(s.drop_first()));
        assert(trim_spec(s).len() < s.len());
    }
    assert(trim_start_spec(s) == s);
    if is_space(s[s.len() - 1]) {
        assert(s.last() == s[s.len() - 1]);
        lemma_trim_end_len(s.drop_last());
        assert(trim_end_spec(s).len() < s.len());
    }
}

/// Trim a string on both sides, per the model `trim_spec`.
pub fn trim_str<'a>(s: &'a str) -> (r: &'a str)
    ensures
        r@ == trim_spec(s@),
{
    let n = s.unicode_len();
    let mut lo: usize = 0;
    while lo < n && space_char(s.get_char(lo))
        invariant
            0 <= lo <= n,
            n == s@.len(),
            forall|j: int| 0 <= j < lo ==> is_space(s@[j]),
        decreases n - lo,
    {
        lo = lo + 1;
    }
    proof {
        lemma_trim_start_skip(s@, lo as int);
    }
    let mut hi: usize = n;
    while hi > lo && space_char(s.get_char(hi - 1))
        invariant
            lo <= hi <= n,
            n == s@.len(),
            trim_start_spec(s@) == s@.skip(lo as int),
            forall|j: int| hi <= j < n ==> is_space(s@[j]),
        decreases hi,
    {
        hi = hi - 1;
    }
    proof {
        let t = s@.skip(lo as int);
        assert(forall|j: int| hi - lo <= j < t.len() ==> is_space(#[trigger] t[j]));
        assert(hi > lo ==> t[hi - lo - 1] == s@[hi - 1]);
        lemma_trim_end_take(t, hi - lo);
        assert(t.take(hi - lo) =~= s@.subrange(lo as int, hi as int));
    }
    s.substring_char(lo, hi)
}

/// Trim a string on the left only, per the model `trim_start_spec`.
pub fn trim_start_str<'a>(s: &'a str) -> (r: &'a str)
    ensures
        r@ == trim_start_spec(s@),
{
    let n = s.unicode_len();
    let mut lo: usize = 0;
    while lo < n && space_char(s.get_char(lo))
        invariant
            0 <= lo <= n,
            n == s@.len(),
            forall|j: int| 0 <= j < lo ==> is_space(s@[j]),
        decreases n - lo,
    {
        lo = lo + 1;
    }
    proof {
        lemma_trim_start_skip(s@, lo as int);
    }
    s.substring_char(lo, n)
}

/// Index of the first occurrence of `c` in `s`, if any.
pub open spec fn find_char_spec(s: Seq<char>, c: char) -> Option<int>
    decreases s.len(),
{
    if s.len() == 0 {
        None
    } else if s[0] == c {
        Some(0)
    } else {
        match find_char_spec(s.drop_first(), c) {
            None => None,
            Some(i) => Some(i + 1),
        }
    }
}

/// `find_char_spec` returns the first occurrence, or `None` when there is none.
pub proof fn lemma_find_char(s: Seq<char>, c: char)
    ensures
        match find_char_spec(s, c) {
            Some(i) => 0 <= i < s.len() && s[i] == c && forall|j: int| 0 <= j < i ==> s[j] != c,
            None => forall|j: int| 0 <= j < s.len() ==> s[j] != c,
        },
    decreases s.len(),
{
    if s.len() > 0 && s[0] != c {
        let t = s.drop_first();
        lemma_find_char(t, c);
        assert(forall|j: int| 1 <= j < s.len() ==> #[trigger] s[j] == t[j - 1]);
    }
}

/// A first occurrence determines the value of `find_char_spec`.
pub proof fn lemma_find_char_at(s: Seq<char>, c: char, i: int)
    requires
        0 <= i < s.len(),
        s[i] == c,
        forall|j: int| 0 <= j < i ==> s[j] != c,
    ensures
        find_char_spec(s, c) == Some(i),
    decreases i,
{
    if i > 0 {
        let t = s.drop_first();
        assert(forall|j: int| 0 <= j < i - 1 ==> #[trigger] t[j] != c);
        lemma_find_char_at(t, c, i - 1);
    }
}

/// No occurrence at all means `find_char_spec` is `None`.
pub proof fn lemma_find_char_none(s: Seq<char>, c: char)
    requires
        forall|j: int| 0 <= j < s.len() ==> s[j] != c,
    ensures
        find_char_spec(s, c) is None,
{
    lemma_find_char(s, c);
    if let Some(i) = find_char_spec(s, c) {
        assert(s[i] == c);
    }
}

/// First occurrence of `c` in `s`, per the model `find_char_spec`.
pub fn find_char(s: &str, c: char) -> (r: Option<usize>)
    ensures
        match r {
            Some(u) => find_char_spec(s@, c) == Some(u as int),
            None => find_char_spec(s@, c) is None,
        },
{
    let n = s.unicode_len();
    let mut i: usize = 0;
    while i < n
        invariant
            0 <= i <= n,
            n == s@.len(),
            forall|j: int| 0 <= j < i ==> s@[j] != c,
        decreases n - i,
    {
        if s.get_char(i) == c {
            proof {
                lemma_find_char_at(s@, c, i as int);
            }
            return Some(i);
        }
        i = i + 1;
    }
    proof {
        lemma_find_char_none(s@, c);
    }
    None
}

/// First occurrence of `c` in `s` at or after position `from`.
pub fn find_char_from(s: &str, from: usize, c: char) -> (r: Option<usize>)
    requires
        from <= s@.len(),
    ensures
        match r {
            Some(u) => from <= u && find_char_spec(s@.skip(from as int), c) == Some(
                u - from as int,
            ),
            None => find_char_spec(s@.skip(from as int), c) is None,
        },
{
    let n = s.unicode_len();
    let ghost t = s@.skip(from as int);
    let mut i: usize = from;
    while i < n
        invariant
            from <= i <= n,
            n == s@.len(),
            t == s@.skip(from as int),
            forall|j: int| 0 <= j < i - from ==> t[j] != c,
        decreases n - i,
    {
        if s.get_char(i) == c {
            proof {
                assert(t[i - from as int] == s@[i as int]);
                lemma_find_char_at(t, c, i - from as int);
            }
            return Some(i);
        }
        proof {
            assert(t[i - from as int] == s@[i as int]);
        }
        i = i + 1;
    }
    proof {
        lemma_find_char_none(t, c);
    }
    None
}

/// The segments of `s` between newline characters, in order.
pub open spec fn split_lines_spec(s: Seq<char>) -> Seq<Seq<char>>
    decreases s.len() via split_lines_spec_decreases
{
    match find_char_spec(s, '\n') {
        None => if s.len() == 0 {
            Seq::empty()
        } else {
            seq![s]
        },
        Some(i) => seq![s.take(i)] + split_lines_spec(s.skip(i + 1)),
    }
}

#[via_fn]
proof fn split_lines_spec_decreases(s: Seq<char>) {
    lemma_find_char(s, '\n');
}

/// The views of a sequence of string slices.
pub open spec fn line_views(v: Seq<&str>) -> Seq<Seq<char>> {
    Seq::new(v.len(), |i: int| v[i]@)
}

/// Split a string into its newline-separated segments, per the model
/// `split_lines_spec`.
pub fn split_lines<'a>(input: &'a str) -> (r: Vec<&'a str>)
    ensures
        line_views(r@) == split_lines_spec(input@),
{
    let n = input.unicode_len();
    let mut out: Vec<&'a str> = Vec::new();
    let mut pos: usize = 0;
    proof {
        assert(input@.skip(0) =~= input@);
        assert(line_views(out@) + split_lines_spec(input@) =~= split_lines_spec(input@));
    }
    while pos < n
        invariant
            0 <= pos <= n,
            n == input@.len(),
            split_lines_spec(input@) == line_views(out@) + split_lines_spec(
                input@.skip(pos as int),
            ),
        decreases n - pos,
    {
        let ghost t = input@.skip(pos as int);
        let ghost v0 = line_views(out@);
        match find_char_from(input, pos, '\n') {
            Some(i) => {
                proof {
                    lemma_find_char(t, '\n');
                }
                let seg = input.substring_char(pos, i);
                out.push(seg);
                proof {
                    assert(seg@ =~= t.take(i - pos as int));
                    assert(t.skip(i - pos as int + 1) =~= input@.skip(i + 1));
                    assert(split_lines_spec(t) == seq![t.take(i - pos as int)]
                        + split_lines_spec(t.skip(i - pos as int + 1)));
                    assert(line_views(out@) =~= v0 + seq![seg@]);
                    assert(v0 + (seq![seg@] + split_lines_spec(input@.skip(i + 1))) =~= (v0
                        + seq![seg@]) + split_lines_spec(input@.skip(i + 1)));
                }
                pos = i + 1;
            },
            None => {
                let seg = input.substring_char(pos, n);
                out.push(seg);
                proof {
                    assert(seg@ =~= t);
                    assert(t.len() > 0);
                    assert(split_lines_spec(t) == seq![t]);
                    assert(line_views(out@) =~= v0 + seq![t]);
                    assert(input@.skip(n as int).len() == 0);
                    assert(split_lines_spec(input@.skip(n as int)) =~= Seq::<Seq<char>>::empty());
                    assert((v0 + seq![t]) + Seq::<Seq<char>>::empty() =~= v0 + seq![t]);
                }
                pos = n;
            },
        }
    }
    proof {
        assert(input@.skip(n as int).len() == 0);
        assert(split_lines_spec(input@.skip(n as int)) =~= Seq::<Seq<char>>::empty());
        assert(line_views(out@) + Seq::<Seq<char>>::empty() =~= line_views(out@));
    }
    out
}

/// `pat` occurs in `s` at position `i`.
pub open spec fn sub_at(s: Seq<char>, pat: Seq<char>, i: int) -> bool {
    0 <= i && i + pat.len() <= s.len() && s.subrange(i, i + pat.len()) == pat
}

/// Index of the first occurrence of `pat` in `s`, if any.
pub open spec fn find_sub_spec(s: Seq<char>, pat: Seq<char>) -> Option<int>
    decreases s.len(),
{
    if pat.len() <= s.len() && s.subrange(0, pat.len() as int) == pat {
        Some(0)
    } else if s.len() == 0 {
        None
    } else {
        match find_sub_spec(s.drop_first(), pat) {
            None => None,
            Some(i) => Some(i + 1),
        }
    }
}

/// `pat` occurs somewhere in `s`.
pub open spec fn contains_sub(s: Seq<char>, pat: Seq<char>) -> bool {
    exists|i: int| sub_at(s, pat, i)
}

/// Occurrences in the tail shift by one position.
proof fn lemma_sub_at_shift(s: Seq<char>, pat: Seq<char>, i: int)
    requires
        s.len() > 0,
        1 <= i,
    ensures
        sub_at(s, pat, i) == sub_at(s.drop_first(), pat, i - 1),
{
    let t = s.drop_first();
    if 0 <= i - 1 && i - 1 + pat.len() <= t.len() {
        assert(t.subrange(i - 1, i - 1 + pat.len()) =~= s.subrange(i, i + pat.len()));
    }
}

/// `find_sub_spec` returns the first occurrence, or `None` when there is none.
pub proof fn lemma_find_sub(s: Seq<char>, pat: Seq<char>)
    ensures
        match find_sub_spec(s, pat) {
            Some(i) => sub_at(s, pat, i) && forall|j: int| 0 <= j < i ==> !sub_at(s, pat, j),
            None => forall|j: int| !sub_at(s, pat, j),
        },
    decreases s.len(),
{
    if pat.len() <= s.len() && s.subrange(0, pat.len() as int) == pat {
    } else if s.len() == 0 {
        assert(forall|j: int| !sub_at(s, pat, j)) by {
            assert forall|j: int| !sub_at(s, pat, j) by {
                if sub_at(s, pat, j) {
                    assert(s.subrange(j, j + pat.len()) == pat);
                }
            }
        }
    } else {
        let t = s.drop_first();
        lemma_find_sub(t, pat);
        assert forall|j: int| 1 <= j implies sub_at(s, pat, j) == sub_at(t, pat, j - 1) by {
            lemma_sub_at_shift(s, pat, j);
        }
        assert forall|j: int| j <= 0 implies !sub_at(s, pat, j) by {
            if sub_at(s, pat, j) {
                assert(j == 0);
                assert(s.subrange(0, pat.len() as int) == pat);
            }
        }
    }
}

/// A first occurrence determines the value of `find_sub_spec`.
pub proof fn lemma_find_sub_at(s: Seq<char>, pat: Seq<char>, i: int)
    requires
        sub_at(s, pat, i),
        forall|j: int| 0 <= j < i ==> !sub_at(s, pat, j),
    ensures
        find_sub_spec(s, pat) == Some(i),
{
    lemma_find_sub(s, pat);
    match find_sub_spec(s, pat) {
        Some(k) => {
            if k < i {
                assert(!sub_at(s, pat, k));
            }
            if i < k {
                assert(!sub_at(s, pat, i));
            }
        },
        None => {
            assert(!sub_at(s, pat, i));
        },
    }
}

/// No occurrence at all means `find_sub_spec` is `None`.
pub proof fn lemma_find_sub_none(s: Seq<char>, pat: Seq<char>)
    requires
        forall|j: int| !sub_at(s, pat, j),
    ensures
        find_sub_spec(s, pat) is None,
{
    lemma_find_sub(s, pat);
    if let Some(i) = find_sub_spec(s, pat) {
        assert(!sub_at(s, pat, i));
    }
}

/// Does `pat` occur in `s` exactly at position `at`?
pub fn match_at(s: &str, pat: &str, at: usize) -> (b: bool)
    requires
        at <= s@.len(),
    ensures
        b == sub_at(s@, pat@, at as int),
{
    let n = s.unicode_len();
    let m = pat.unicode_len();
    if m > n - at {
        proof {
            if sub_at(s@, pat@, at as int) {
                assert(at + pat@.len() <= s@.len());
            }
        }
        return false;
    }
    let mut k: usize = 0;
    while k < m
        invariant
            0 <= k <= m,
            at + m <= n,
            n == s@.len(),
            m == pat@.len(),
            forall|j: int| 0 <= j < k ==> s@[at + j] == pat@[j],
        decreases m - k,
    {
        if s.get_char(at + k) != pat.get_char(k) {
            proof {
                if sub_at(s@, pat@, at as int) {
                    assert(s@.subrange(at as int, at + pat@.len()) == pat@);
                    assert(s@.subrange(at as int, at + pat@.len())[k as int] == pat@[k as int]);
                }
            }
            return false;
        }
        k = k + 1;
    }
    proof {
        assert(s@.subrange(at as int, at + pat@.len()) =~= pat@);
    }
    true
}

/// First occurrence of `pat` in `s`, per the model `find_sub_spec`.
pub fn find_sub(s: &str, pat: &str) -> (r: Option<usize>)
    ensures
        match r {
            Some(u) => find_sub_spec(s@, pat@) == Some(u as int),
            None => find_sub_spec(s@, pat@) is None,
        },
{
    let n = s.unicode_len();
    let mut i: usize = 0;
    while i < n
        invariant
            0 <= i <= n,
            n == s@.len(),
            forall|j: int| 0 <= j < i ==> !sub_at(s@, pat@, j),
        decreases n - i,
    {
        if match_at(s, pat, i) {
            proof {
                lemma_find_sub_at(s@, pat@, i as int);
            }
            return Some(i);
        }
        i = i + 1;
    }
    if match_at(s, pat, n) {
        proof {
            lemma_find_sub_at(s@, pat@, n as int);
        }
        return Some(n);
    }
    proof {
        assert forall|j: int| !sub_at(s@, pat@, j) by {
            if sub_at(s@, pat@, j) {
                assert(0 <= j && j + pat@.len() <= s@.len());
            }
        }
        lemma_find_sub_none(s@, pat@);
    }
    None
}

/// Does `pat` occur anywhere in `s`?
pub fn contains_str(s: &str, pat: &str) -> (b: bool)
    ensures
        b == contains_sub(s@, pat@),
{
    let r = find_sub(s, pat);
    proof {
        lemma_find_sub(s@, pat@);
        match find_sub_spec(s@, pat@) {
            Some(i) => {
                assert(sub_at(s@, pat@, i));
            },
            None => {
                if contains_sub(s@, pat@) {
                    let i = choose|i: int| sub_at(s@, pat@, i);
                    assert(!sub_at(s@, pat@, i));
                }
            },
        }
    }
    r.is_some()
}

/// Does `s` start with `pat`?
pub fn starts_with_str(s: &str, pat: &str) -> (b: bool)
    ensures
        b == sub_at(s@, pat@, 0),
{
    if pat.unicode_len() > s.unicode_len() {
        return false;
    }
    match_at(s, pat, 0)
}

/// Character-for-character string equality.
pub fn str_eq(a: &str, b: &str) -> (r: bool)
    ensures
        r == (a@ == b@),
{
    let n = a.unicode_len();
    let m = b.unicode_len();
    if n != m {
        return false;
    }
    let mut i: usize = 0;
    while i < n
        invariant
            0 <= i <= n,
            n == a@.len(),
            n == b@.len(),
            forall|j: int| 0 <= j < i ==> a@[j] == b@[j],
        decreases n - i,
    {
        if a.get_char(i) != b.get_char(i) {
            return false;
        }
        i = i + 1;
    }
    proof {
        assert(a@ =~= b@);
    }
    true
}

/// Length of the longest all-digit prefix of `s`.
pub open spec fn digits_prefix_len(s: Seq<char>) -> int
    decreases s.len(),
{
    if s.len() > 0 && is_digit_char(s[0]) {
        1 + digits_prefix_len(s.drop_first())
    } else {
        0
    }
}

/// A digit run followed by a non-digit (or the end) determines `digits_prefix_len`.
pub proof fn lemma_digits_prefix(s: Seq<char>, i: int)
    requires
        0 <= i <= s.len(),
        forall|j: int| 0 <= j < i ==> is_digit_char(s[j]),
        i == s.len() || !is_digit_char(s[i]),
    ensures
        digits_prefix_len(s) == i,
    decreases i,
{
    if i == 0 {
    } else {
        let t = s.drop_first();
        assert(forall|j: int| 1 <= j < s.len() ==> #[trigger] s[j] == t[j - 1]);
        assert(forall|j: int| 0 <= j < i - 1 ==> is_digit_char(#[trigger] t[j]));
        lemma_digits_prefix(t, i - 1);
    }
}

/// Decimal value of an all-digit sequence.
pub open spec fn dec_val(s: Seq<char>) -> int
    decreases s.len(),
{
    if s.len() == 0 {
        0
    } else {
        dec_val(s.drop_last()) * 10 + digit_val(s.last())
    }
}

pub proof fn lemma_dec_val_nonneg(s: Seq<char>)
    requires
        forall|j: int| 0 <= j < s.len() ==> is_digit_char(s[j]),
    ensures
        dec_val(s) >= 0,
    decreases s.len(),
{
    if s.len() > 0 {
        let t = s.drop_last();
        assert(forall|j: int| 0 <= j < t.len() ==> #[trigger] t[j] == s[j]);
        lemma_dec_val_nonneg(t);
    }
}

/// Extending a digit string by one digit multiplies its value by ten.
pub proof fn lemma_dec_val_step(s: Seq<char>, k: int)
    requires
        0 <= k < s.len(),
    ensures
        dec_val(s.take(k + 1)) == dec_val(s.take(k)) * 10 + digit_val(s[k]),
{
    let u = s.take(k + 1);
    assert(u.drop_last() =~= s.take(k));
    assert(u.last() == s[k]);
}

/// The value of a digit string bounds the value of each of its prefixes.
pub proof fn lemma_dec_val_mono(s: Seq<char>, k: int)
    requires
        0 <= k <= s.len(),
        forall|j: int| 0 <= j < s.len() ==> is_digit_char(s[j]),
    ensures
        dec_val(s.take(k)) <= dec_val(s),
    decreases s.len(),
{
    if k == s.len() {
        assert(s.take(k) =~= s);
    } else {
        let t = s.drop_last();
        assert(forall|j: int| 0 <= j < t.len() ==> #[trigger] t[j] == s[j]);
        lemma_dec_val_mono(t, k);
        assert(t.take(k) =~= s.take(k));
        lemma_dec_val_nonneg(t);
        assert(dec_val(s) == dec_val(t) * 10 + digit_val(s.last()));
    }
}

/// The number encoded by the digit prefix of `s`: `None` when the prefix is
/// empty or its value exceeds `u32::MAX`.
pub open spec fn leading_number(s: Seq<char>) -> Option<u32> {
    let d = s.take(digits_prefix_len(s));
    if d.len() == 0 || dec_val(d) > u32::MAX {
        None
    } else {
        Some(dec_val(d) as u32)
    }
}

/// Parse the digit prefix of `s` as a `u32`, per the model `leading_number`.
pub fn parse_leading_number(s: &str) -> (r: Option<u32>)
    ensures
        r == leading_number(s@),
{
    let n = s.unicode_len();
    let mut e: usize = 0;
    while e < n && digit_char(s.get_char(e))
        invariant
            0 <= e <= n,
            n == s@.len(),
            forall|j: int| 0 <= j < e ==> is_digit_char(s@[j]),
        decreases n - e,
    {
        e = e + 1;
    }
    proof {
        lemma_digits_prefix(s@, e as int);
    }
    if e == 0 {
        return None;
    }
    let ghost d = s@.take(e as int);
    proof {
        assert(forall|j: int| 0 <= j < d.len() ==> #[trigger] d[j] == s@[j]);
    }
    let mut acc: u32 = 0;
    let mut k: usize = 0;
    while k < e
        invariant
            0 < e <= n,
            0 <= k <= e,
            n == s@.len(),
            digits_prefix_len(s@) == e as int,
            d == s@.take(e as int),
            forall|j: int| 0 <= j < e ==> is_digit_char(s@[j]),
            forall|j: int| 0 <= j < d.len() ==> #[trigger] d[j] == s@[j],
            acc == dec_val(d.take(k as int)),
        decreases e - k,
    {
        let c = s.get_char(k);
        let v: u32 = (c as u32) - ('0' as u32);
        assert(v == digit_val(s@[k as int]));
        assert(0 <= v <= 9);
        if acc > (u32::MAX - v) / 10 {
            proof {
                assert(acc * 10 + v > u32::MAX) by (nonlinear_arith)
                    requires
                        acc > (u32::MAX - v) / 10,
                        v <= 9,
                ;
                lemma_dec_val_step(d, k as int);
                assert(dec_val(d.take(k + 1)) > u32::MAX);
                assert(forall|j: int| 0 <= j < d.len() ==> is_digit_char(#[trigger] d[j]));
                lemma_dec_val_mono(d, k + 1);
            }
            return None;
        }
        proof {
            assert(acc * 10 + v <= u32::MAX) by (nonlinear_arith)
                requires
                    acc <= (u32::MAX - v) / 10,
                    v <= 9,
            ;
            lemma_dec_val_step(d, k as int);
        }
        acc = acc * 10 + v;
        k = k + 1;
    }
    proof {
        assert(d.take(e as int) =~= d);
    }
    Some(acc)
}

/// Strict lexicographic order on character sequences.
pub open spec fn lex_lt(a: Seq<char>, b: Seq<char>) -> bool
    decreases a.len(),
{
    if b.len() == 0 {
        false
    } else if a.len() == 0 {
        true
    } else if a[0] != b[0] {
        a[0] < b[0]
    } else {
        lex_lt(a.drop_first(), b.drop_first())
    }
}

/// Two sequences neither of which precedes the other are equal.
pub proof fn lemma_lex_connected(a: Seq<char>, b: Seq<char>)
    requires
        !lex_lt(a, b),
        !lex_lt(b, a),
    ensures
        a == b,
    decreases a.len(),
{
    if a.len() == 0 || b.len() == 0 {
        assert(a =~= b);
    } else {
        lemma_lex_connected(a.drop_first(), b.drop_first());
        assert(a =~= seq![a[0]] + a.drop_first());
        assert(b =~= seq![b[0]] + b.drop_first());
        assert(a =~= b);
    }
}

/// Lexicographic order is asymmetric.
pub proof fn lemma_lex_asymmetric(a: Seq<char>, b: Seq<char>)
    requires
        lex_lt(a, b),
    ensures
        !lex_lt(b, a),
        a != b,
    decreases a.len(),
{
    if a.len() > 0 && b.len() > 0 && a[0] == b[0] {
        lemma_lex_asymmetric(a.drop_first(), b.drop_first());
        if a == b {
            assert(a.drop_first() =~= b.drop_first());
        }
    } else {
        if a == b {
            assert(a.len() == b.len());
        }
    }
}

/// Lexicographic order is transitive.
pub proof fn lemma_lex_transitive(a: Seq<char>, b: Seq<char>, c: Seq<char>)
    requires
        lex_lt(a, b),
        lex_lt(b, c),
    ensures
        lex_lt(a, c),
    decreases a.len(),
{
    if a.len() > 0 && b.len() > 0 && c.len() > 0 && a[0] == b[0] && b[0] == c[0] {
        lemma_lex_transitive(a.drop_first(), b.drop_first(), c.drop_first());
    }
}

/// A shared prefix does not affect the order of what follows.
pub proof fn lemma_lex_skip(a: Seq<char>, b: Seq<char>, i: int)
    requires
        0 <= i <= a.len(),
        i <= b.len(),
        forall|j: int| 0 <= j < i ==> a[j] == b[j],
    ensures
        lex_lt(a, b) == lex_lt(a.skip(i), b.skip(i)),
    decreases i,
{
    if i > 0 {
        let ta = a.drop_first();
        let tb = b.drop_first();
        assert(forall|j: int| 1 <= j < a.len() ==> #[trigger] a[j] == ta[j - 1]);
        assert(forall|j: int| 0 <= j < i - 1 ==> #[trigger] ta[j] == tb[j]);
        lemma_lex_skip(ta, tb, i - 1);
        assert(ta.skip(i - 1) =~= a.skip(i));
        assert(tb.skip(i - 1) =~= b.skip(i));
    } else {
        assert(a.skip(0) =~= a);
        assert(b.skip(0) =~= b);
    }
}

/// Strict lexicographic comparison, per the model `lex_lt`.
pub fn str_lt(a: &str, b: &str) -> (r: bool)
    ensures
        r == lex_lt(a@, b@),
{
    let n = a.unicode_len();
    let m = b.unicode_len();
    let mut i: usize = 0;
    while i < n && i < m
        invariant
            0 <= i <= n,
            i <= m,
            n == a@.len(),
            m == b@.len(),
            forall|j: int| 0 <= j < i ==> a@[j] == b@[j],
        decreases n - i,
    {
        let ca = a.get_char(i);
        let cb = b.get_char(i);
        if ca != cb {
            proof {
                lemma_lex_skip(a@, b@, i as int);
                assert(a@.skip(i as int)[0] == ca);
                assert(b@.skip(i as int)[0] == cb);
            }
            return ca < cb;
        }
        i = i + 1;
    }
    proof {
        lemma_lex_skip(a@, b@, if n < m { n as int } else { m as int });
    }
    n < m
}

} // verus!
