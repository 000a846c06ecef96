//! Character-level helpers shared by the request parsers: searching, splitting,
//! trimming and ASCII case folding over sequences of `char`.
use vstd::prelude::*;

verus! {

/// `c` does not occur in `s`.
pub open spec fn lacks(s: Seq<char>, c: char) -> bool {
    forall|i: int| 0 <= i < s.len() ==> s[i] != c
}

/// `c` occurs in `s`.
pub open spec fn has_char(s: Seq<char>, c: char) -> bool {
    exists|i: int| 0 <= i < s.len() && s[i] == c
}

/// `i` is the position of the first `c` in `s`.
pub open spec fn is_first_index(s: Seq<char>, c: char, i: int) -> bool {
    0 <= i < s.len() && s[i] == c && lacks(s.take(i), c)
}

/// Position of the first `c` in `s` (meaningful only when `has_char(s, c)`).
pub open spec fn first_index(s: Seq<char>, c: char) -> int {
    choose|i: int| is_first_index(s, c, i)
}

/// `str::split_once` with a single-character pattern: the text before the first
/// `c` and the text after it.
pub open spec fn split_once(s: Seq<char>, c: char) -> Option<(Seq<char>, Seq<char>)> {
    if has_char(s, c) {
        let i = first_index(s, c);
        Some((s.take(i), s.skip(i + 1)))
    } else {
        None
    }
}

/// The two-character text `a b` starts at position `i` of `s`.
pub open spec fn pair_at(s: Seq<char>, i: int, a: char, b: char) -> bool {
    0 <= i && i + 1 < s.len() && s[i] == a && s[i + 1] == b
}

/// `str::split_once` with a two-character pattern `a b`.
pub open spec fn split_once_pair(s: Seq<char>, a: char, b: char) -> Option<(Seq<char>, Seq<char>)> {
    if exists|i: int| pair_at(s, i, a, b) {
        let i = choose|i: int| pair_at(s, i, a, b) && (forall|j: int| 0 <= j < i ==> !pair_at(s, j, a, b));
        Some((s.take(i), s.skip(i + 2)))
    } else {
        None
    }
}

/// Number of occurrences of `c` in `s`.
pub open spec fn count(s: Seq<char>, c: char) -> nat
    decreases s.len(),
{
    if s.len() == 0 {
        0
    } else {
        count(s.drop_last(), c) + if s.last() == c { 1nat } else { 0nat }
    }
}

/// `char::is_whitespace`: the Unicode `White_Space` property.
pub open spec fn is_whitespace(c: char) -> bool {
    ||| ('\u{9}' <= c && c <= '\u{d}')
    ||| c == ' '
    ||| c == '\u{85}'
    ||| c == '\u{a0}'
    ||| c == '\u{1680}'
    ||| ('\u{2000}' <= c && c <= '\u{200a}')
    ||| c == '\u{2028}'
    ||| c == '\u{2029}'
    ||| c == '\u{202f}'
    ||| c == '\u{205f}'
    ||| c == '\u{3000}'
}

/// `str::trim`: `s` without its leading and trailing white space.
pub open spec fn trim(s: Seq<char>) -> Seq<char> {
    let start = lead_ws(s);
    let end = s.len() - trail_ws(s);
    if start >= end { Seq::empty() } else { s.subrange(start, end) }
}

/// Number of white-space characters at the start of `s`.
pub open spec fn lead_ws(s: Seq<char>) -> int
    decreases s.len(),
{
    if s.len() == 0 {
        0
    } else if is_whitespace(s[0]) {
        1 + lead_ws(s.drop_first())
    } else {
        0
    }
}

/// Number of white-space characters at the end of `s`.
pub open spec fn trail_ws(s: Seq<char>) -> int
    decreases s.len(),
{
    if s.len() == 0 {
        0
    } else if is_whitespace(s.last()) {
        1 + trail_ws(s.drop_last())
    } else {
        0
    }
}

/// ASCII lower-casing of one character (`char::to_ascii_lowercase`).
pub open spec fn ascii_lower(c: char) -> char {
    if 'A' <= c && c <= 'Z' { ((c as u32) + 32) as char } else { c }
}

/// `str::eq_ignore_ascii_case`.
pub open spec fn eq_ignore_ascii_case(a: Seq<char>, b: Seq<char>) -> bool {
    a.len() == b.len() && forall|i: int| 0 <= i < a.len() ==> ascii_lower(a[i]) == ascii_lower(b[i])
}

/// `s` with every trailing `c` removed (`str::trim_end_matches` with a char).
pub open spec fn trim_end_char(s: Seq<char>, c: char) -> Seq<char>
    decreases s.len(),
{
    if s.len() > 0 && s.last() == c { trim_end_char(s.drop_last(), c) } else { s }
}

proof fn lemma_lead_ws_exact(s: Seq<char>, k: int)
    requires
        0 <= k <= s.len(),
        forall|j: int| 0 <= j < k ==> is_whitespace(#[trigger] s[j]),
        k == s.len() || !is_whitespace(s[k]),
    ensures
        lead_ws(s) == k,
    decreases k,
{
    if k > 0 {
        let t = s.drop_first();
        assert forall|j: int| 0 <= j < k - 1 implies is_whitespace(#[trigger] t[j]) by {
            assert(t[j] == s[j + 1]);
        }
        if k - 1 < t.len() {
            assert(t[k - 1] == s[k]);
        }
        assert(is_whitespace(s[0]));
        lemma_lead_ws_exact(t, k - 1);
    }
}

proof fn lemma_trail_ws_exact(s: Seq<char>, k: int)
    requires
        0 <= k <= s.len(),
        forall|j: int| s.len() - k <= j < s.len() ==> is_whitespace(#[trigger] s[j]),
        k == s.len() || !is_whitespace(s[s.len() - 1 - k]),
    ensures
        trail_ws(s) == k,
    decreases k,
{
    if k > 0 {
        let t = s.drop_last();
        assert forall|j: int| t.len() - (k - 1) <= j < t.len() implies is_whitespace(
            #[trigger] t[j],
        ) by {
            assert(t[j] == s[j]);
        }
        if k - 1 < t.len() {
            assert(t[t.len() - 1 - (k - 1)] == s[s.len() - 1 - k]);
        }
        assert(is_whitespace(s[s.len() - 1]));
        lemma_trail_ws_exact(t, k - 1);
    }
}

/// The leading white space lies within `s` and is followed by a character
/// that is not white space, if any.
pub proof fn lemma_lead_ws_bound(s: Seq<char>)
    ensures
        0 <= lead_ws(s) <= s.len(),
        lead_ws(s) < s.len() ==> !is_whitespace(s[lead_ws(s)]),
    decreases s.len(),
{
    if s.len() > 0 && is_whitespace(s[0]) {
        lemma_lead_ws_bound(s.drop_first());
        if lead_ws(s) < s.len() {
            assert(s[lead_ws(s)] == s.drop_first()[lead_ws(s.drop_first())]);
        }
    }
}

/// The trailing white space lies within `s` and is preceded by a character
/// that is not white space, if any.
pub proof fn lemma_trail_ws_bound(s: Seq<char>)
    ensures
        0 <= trail_ws(s) <= s.len(),
        trail_ws(s) < s.len() ==> !is_whitespace(s[s.len() - 1 - trail_ws(s)]),
    decreases s.len(),
{
    if s.len() > 0 && is_whitespace(s.last()) {
        lemma_trail_ws_bound(s.drop_last());
        if trail_ws(s) < s.len() {
            assert(s[s.len() - 1 - trail_ws(s)] == s.drop_last()[s.drop_last().len() - 1 - trail_ws(
                s.drop_last(),
            )]);
        }
    }
}

/// Where `c` occurs in `s`, its first occurrence is at `first_index(s, c)`.
pub proof fn lemma_first_index(s: Seq<char>, c: char)
    requires
        has_char(s, c),
    ensures
        is_first_index(s, c, first_index(s, c)),
    decreases s.len(),
{
    if s[0] == c {
        assert(is_first_index(s, c, 0));
    } else {
        let t = s.drop_first();
        let j = choose|j: int| 0 <= j < s.len() && s[j] == c;
        assert(t[j - 1] == c);
        lemma_first_index(t, c);
        let k = first_index(t, c);
        assert forall|m: int| 0 <= m < k + 1 implies #[trigger] s.take(k + 1)[m] != c by {
            if m > 0 {
                assert(s.take(k + 1)[m] == t.take(k)[m - 1]);
            }
        }
        assert(is_first_index(s, c, k + 1));
    }
}

/// Trimming twice is trimming once: a trimmed text has no white space at
/// either end.
pub proof fn law_trim_idempotent(s: Seq<char>)
    ensures
        trim(trim(s)) == trim(s),
{
    let t = trim(s);
    lemma_lead_ws_bound(s);
    lemma_trail_ws_bound(s);
    if t.len() > 0 {
        let start = lead_ws(s);
        let end = s.len() - trail_ws(s);
        assert(t[0] == s[start]);
        assert(t[t.len() - 1] == s[end - 1]);
        assert(lead_ws(t) == 0);
        assert(trail_ws(t) == 0);
        assert(trim(t) =~= t);
    } else {
        assert(lead_ws(t) == 0);
        assert(trim(t) =~= t);
    }
}

/// The characters of `s`, in order.
pub fn chars_of(s: &str) -> (v: Vec<char>)
    ensures
        v@ == s@,
{
    let mut v: Vec<char> = Vec::new();
    broadcast use vstd::string::group_string_axioms;
    for c in it: s.chars()
        invariant
            it.seq() == s@,
            v@ == s@.take(it.index() as int),
    {
        v.push(c);
    }
    assert(v@ =~= s@);
    v
}

/// The view of an optional pair of text slices.
pub open spec fn view_pair(p: Option<(&str, &str)>) -> Option<(Seq<char>, Seq<char>)> {
    match p {
        Some((a, b)) => Some((a@, b@)),
        None => None,
    }
}

/// Position of the first `c` in `cs`, if any.
pub fn find_char(cs: &Vec<char>, c: char) -> (r: Option<usize>)
    ensures
        match r {
            Some(i) => is_first_index(cs@, c, i as int) && first_index(cs@, c) == i && has_char(cs@, c),
            None => lacks(cs@, c) && !has_char(cs@, c),
        },
{
    let mut i: usize = 0;
    while i < cs.len()
        invariant
            i <= cs.len(),
            lacks(cs@.take(i as int), c),
        decreases cs.len() - i,
    {
        if cs[i] == c {
            proof {
                assert(is_first_index(cs@, c, i as int));
                assert forall|k: int| is_first_index(cs@, c, k) implies k == i by {
                    if k < i {
                        assert(cs@.take(i as int)[k] == cs@[k]);
                    } else if k > i {
                        assert(cs@.take(k)[i as int] == cs@[i as int]);
                    }
                }
            }
            return Some(i);
        }
        assert(cs@.take(i + 1) =~= cs@.take(i as int).push(cs@[i as int]));
        i = i + 1;
    }
    assert(cs@.take(i as int) =~= cs@);
    None
}

/// Position of the first occurrence of the pair `a b` in `cs`, if any.
pub fn find_pair(cs: &Vec<char>, a: char, b: char) -> (r: Option<usize>)
    ensures
        match r {
            Some(i) => pair_at(cs@, i as int, a, b) && (forall|j: int|
                0 <= j < i ==> !pair_at(cs@, j, a, b)),
            None => forall|j: int| !pair_at(cs@, j, a, b),
        },
{
    let mut i: usize = 0;
    while i < cs.len()
        invariant
            i <= cs.len(),
            forall|j: int| 0 <= j < i ==> !pair_at(cs@, j, a, b),
        decreases cs.len() - i,
    {
        if i + 1 < cs.len() && cs[i] == a && cs[i + 1] == b {
            return Some(i);
        }
        i = i + 1;
    }
    None
}

/// Number of occurrences of `c` in `cs`.
pub fn count_char(cs: &Vec<char>, c: char) -> (r: usize)
    ensures
        r == count(cs@, c),
{
    let mut n: usize = 0;
    let mut i: usize = 0;
    while i < cs.len()
        invariant
            i <= cs.len(),
            n == count(cs@.take(i as int), c),
            n <= i,
        decreases cs.len() - i,
    {
        assert(cs@.take(i + 1).drop_last() =~= cs@.take(i as int));
        if cs[i] == c {
            n = n + 1;
        }
        i = i + 1;
    }
    assert(cs@.take(i as int) =~= cs@);
    n
}

/// `char::is_whitespace`.
pub fn char_is_whitespace(c: char) -> (r: bool)
    ensures
        r == is_whitespace(c),
{
    ('\u{9}' <= c && c <= '\u{d}') || c == ' ' || c == '\u{85}' || c == '\u{a0}' || c
        == '\u{1680}' || ('\u{2000}' <= c && c <= '\u{200a}') || c == '\u{2028}' || c
        == '\u{2029}' || c == '\u{202f}' || c == '\u{205f}' || c == '\u{3000}'
}

/// `str::trim`.
pub fn trim_str(s: &str) -> (r: &str)
    ensures
        r@ == trim(s@),
{
    let cs = chars_of(s);
    let n = cs.len();
    let mut start: usize = 0;
    while start < n && char_is_whitespace(cs[start])
        invariant
            n == cs@.len(),
            start <= n,
            forall|j: int| 0 <= j < start ==> is_whitespace(#[trigger] cs@[j]),
        decreases n - start,
    {
        start = start + 1;
    }
    proof {
        lemma_lead_ws_exact(cs@, start as int);
    }
    let mut end: usize = n;
    while end > start && char_is_whitespace(cs[end - 1])
        invariant
            n == cs@.len(),
            start <= end <= n,
            forall|j: int| end <= j < n ==> is_whitespace(#[trigger] cs@[j]),
        decreases end,
    {
        end = end - 1;
    }
    proof {
        if end > start {
            lemma_trail_ws_exact(cs@, n - end);
        } else {
            assert(start == n);
            lemma_trail_ws_exact(cs@, n as int);
        }
    }
    let r = s.substring_char(start, end);
    assert(r@ =~= trim(s@));
    r
}

/// `str::split_once` with a single-character pattern.
pub fn split_once_str(s: &str, c: char) -> (r: Option<(&str, &str)>)
    ensures
        view_pair(r) == split_once(s@, c),
{
    let cs = chars_of(s);
    match find_char(&cs, c) {
        Some(i) => {
            let n = cs.len();
            assert(i < n);
            let r = (s.substring_char(0, i), s.substring_char(i + 1, n));
            assert(r.0@ =~= s@.take(i as int));
            assert(r.1@ =~= s@.skip(i + 1));
            Some(r)
        },
        None => None,
    }
}

/// Whether two texts are the same.
pub fn str_eq(a: &str, b: &str) -> (r: bool)
    ensures
        r == (a@ == b@),
{
    let x = chars_of(a);
    let y = chars_of(b);
    if x.len() != y.len() {
        return false;
    }
    let mut i: usize = 0;
    while i < x.len()
        invariant
            x@ == a@,
            y@ == b@,
            x.len() == y.len(),
            i <= x.len(),
            forall|j: int| 0 <= j < i ==> x@[j] == y@[j],
        decreases x.len() - i,
    {
        if x[i] != y[i] {
            return false;
        }
        i = i + 1;
    }
    assert(x@ =~= y@);
    true
}

/// `needle` occurs in `haystack` (`str::contains` with a text pattern).
pub open spec fn contains_text(haystack: Seq<char>, needle: Seq<char>) -> bool {
    exists|i: int| 0 <= i && i + needle.len() <= haystack.len() && #[trigger] haystack.subrange(i, i + needle.len()) == needle
}

/// Whether `needle` occurs in `haystack`.
pub fn str_contains(haystack: &str, needle: &str) -> (r: bool)
    ensures
        r == contains_text(haystack@, needle@),
{
    let h = chars_of(haystack);
    let n = chars_of(needle);
    if n.len() > h.len() {
        return false;
    }
    let mut i: usize = 0;
    while i <= h.len() - n.len()
        invariant
            h@ == haystack@,
            n@ == needle@,
            n.len() <= h.len(),
            forall|j: int| 0 <= j < i ==> #[trigger] h@.subrange(j, j + n@.len()) != n@,
        decreases h.len() - i,
    {
        let mut k: usize = 0;
        while k < n.len() && h[i + k] == n[k]
            invariant
                i + n.len() <= h.len(),
                k <= n.len(),
                forall|m: int| 0 <= m < k ==> h@[i + m] == n@[m],
            decreases n.len() - k,
        {
            k = k + 1;
        }
        if k == n.len() {
            assert(h@.subrange(i as int, i + n@.len()) =~= n@);
            return true;
        }
        assert(h@.subrange(i as int, i + n@.len())[k as int] != n@[k as int]);
        i = i + 1;
    }
    assert forall|j: int| 0 <= j && j + needle@.len() <= haystack@.len() implies #[trigger] haystack@.subrange(
        j,
        j + needle@.len(),
    ) != needle@ by {
        assert(j < i);
    }
    false
}

/// Every character is an ASCII decimal digit.
pub open spec fn all_digits(s: Seq<char>) -> bool {
    forall|i: int| 0 <= i < s.len() ==> '0' <= #[trigger] s[i] && s[i] <= '9'
}

/// The number that the decimal digits `s` write.
pub open spec fn digits_number(s: Seq<char>) -> nat
    decreases s.len(),
{
    if s.len() == 0 {
        0
    } else {
        digits_number(s.drop_last()) * 10 + ((s.last() as int) - ('0' as int)) as nat
    }
}

/// `FromStr` for an unsigned integer type whose largest value is `max`: an
/// optional `+`, then one or more ASCII digits, with a value of at most `max`.
pub open spec fn parse_unsigned(s: Seq<char>, max: nat) -> Option<nat> {
    let d = if s.len() > 0 && s[0] == '+' { s.drop_first() } else { s };
    if d.len() > 0 && all_digits(d) && digits_number(d) <= max {
        Some(digits_number(d))
    } else {
        None
    }
}

proof fn lemma_digits_number_mono(s: Seq<char>, k: int)
    requires
        all_digits(s),
        0 <= k <= s.len(),
    ensures
        digits_number(s.take(k)) <= digits_number(s),
    decreases s.len() - k,
{
    if k < s.len() {
        lemma_digits_number_mono(s, k + 1);
        assert(s.take(k + 1).drop_last() =~= s.take(k));
    } else {
        assert(s.take(k) =~= s);
    }
}

/// Reads an unsigned integer of at most `max`; see `parse_unsigned`.
pub fn parse_unsigned_text(s: &str, max: u64) -> (r: Option<u64>)
    ensures
        match r {
            Some(v) => parse_unsigned(s@, max as nat) == Some(v as nat),
            None => parse_unsigned(s@, max as nat) is None,
        },
{
    let cs = chars_of(s);
    let start: usize = if cs.len() > 0 && cs[0] == '+' { 1 } else { 0 };
    let ghost d = if s@.len() > 0 && s@[0] == '+' { s@.drop_first() } else { s@ };
    assert(d =~= cs@.skip(start as int));
    if start >= cs.len() {
        return None;
    }
    let mut acc: u128 = 0;
    let mut k: usize = start;
    while k < cs.len()
        invariant
            start <= k <= cs.len(),
            cs@ == s@,
            d == cs@.skip(start as int),
            d == (if s@.len() > 0 && s@[0] == '+' { s@.drop_first() } else { s@ }),
            d.len() > 0,
            all_digits(d.take(k - start)),
            acc == digits_number(d.take(k - start)),
            acc <= max,
        decreases cs.len() - k,
    {
        let c = cs[k];
        if !('0' <= c && c <= '9') {
            assert(d[k - start] == c);
            assert(!all_digits(d));
            return None;
        }
        assert(d.take(k + 1 - start).drop_last() =~= d.take(k - start));
        acc = acc * 10 + ((c as u32) - ('0' as u32)) as u128;
        if acc > max as u128 {
            proof {
                if all_digits(d) {
                    lemma_digits_number_mono(d, k + 1 - start);
                }
            }
            return None;
        }
        k = k + 1;
    }
    assert(d.take(k - start) =~= d);
    Some(acc as u64)
}

/// Splitting `a`, `c` and `b` joined, where `a` holds no `c`, at the first
/// `c` gives `a` and `b`.
pub proof fn lemma_split_once_at(a: Seq<char>, c: char, b: Seq<char>)
    requires
        lacks(a, c),
    ensures
        split_once(a + seq![c] + b, c) == Some((a, b)),
{
    let s = a + seq![c] + b;
    let n = a.len() as int;
    assert(s[n] == c);
    assert(has_char(s, c));
    lemma_first_index(s, c);
    let f = first_index(s, c);
    assert(f == n) by {
        if f < n {
            assert(s[f] == a[f]);
        } else if f > n {
            assert(s.take(f)[n] == c);
        }
    }
    assert(s.take(n) =~= a);
    assert(s.skip(n + 1) =~= b);
}

/// A text without `c` does not split at `c`.
pub proof fn lemma_split_once_none(s: Seq<char>, c: char)
    requires
        lacks(s, c),
    ensures
        split_once(s, c) is None,
{
}

} // verus!
