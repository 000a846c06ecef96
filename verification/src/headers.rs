//! Request headers as the request logic reads them: an ordered list of
//! name/value pairs, looked up by name without regard to ASCII case.
use vstd::prelude::*;

use crate::text::{ascii_lower, chars_of, eq_ignore_ascii_case};

verus! {

/// `c` with ASCII upper-case letters mapped to lower case.
pub fn char_to_ascii_lowercase(c: char) -> (r: char)
    ensures
        r == ascii_lower(c),
{
    if 'A' <= c && c <= 'Z' {
        ((c as u8) + 32) as char
    } else {
        c
    }
}

/// `str::eq_ignore_ascii_case`.
pub fn str_eq_ignore_ascii_case(a: &str, b: &str) -> (r: bool)
    ensures
        r == eq_ignore_ascii_case(a@, b@),
{
    let x = chars_of(a);
    let y = chars_of(b);
    if x.len() != y.len() {
        return false;
    }
    let mut i: usize = 0;
    while i < x.len()
        invariant
            x@ == a@,
            y@ == b@,
            x.len() == y.len(),
            i <= x.len(),
            forall|j: int| 0 <= j < i ==> ascii_lower(x@[j]) == ascii_lower(y@[j]),
        decreases x.len() - i,
    {
        if char_to_ascii_lowercase(x[i]) != char_to_ascii_lowercase(y[i]) {
            return false;
        }
        i = i + 1;
    }
    true
}

/// The value of the first entry of `hs` whose name equals `name` up to ASCII case.
pub open spec fn header_value(hs: Seq<(Seq<char>, Seq<char>)>, name: Seq<char>) -> Option<Seq<char>>
    decreases hs.len(),
{
    if hs.len() == 0 {
        None
    } else if eq_ignore_ascii_case(hs[0].0, name) {
        Some(hs[0].1)
    } else {
        header_value(hs.drop_first(), name)
    }
}

/// The entries of `hs` whose name differs from `name` up to ASCII case, in order.
pub open spec fn without_name(hs: Seq<(Seq<char>, Seq<char>)>, name: Seq<char>) -> Seq<
    (Seq<char>, Seq<char>),
> {
    hs.filter(|e: (Seq<char>, Seq<char>)| !eq_ignore_ascii_case(e.0, name))
}

/// Header fields of a request, in the order they were received.
pub struct Headers {
    entries: Vec<(String, String)>,
}

impl View for Headers {
    type V = Seq<(Seq<char>, Seq<char>)>;

    closed spec fn view(&self) -> Seq<(Seq<char>, Seq<char>)> {
        self.entries@.map_values(|e: (String, String)| (e.0@, e.1@))
    }
}

impl Headers {
    /// No header fields.
    pub fn new() -> (r: Headers)
        ensures
            r@ == Seq::<(Seq<char>, Seq<char>)>::empty(),
    {
        let r = Headers { entries: Vec::new() };
        assert(r@ =~= Seq::<(Seq<char>, Seq<char>)>::empty());
        r
    }

    /// Adds a field after the existing ones, keeping any earlier field of the same name.
    pub fn append(&mut self, name: &str, value: &str)
        ensures
            final(self)@ == old(self)@.push((name@, value@)),
    {
        self.entries.push((name.to_string(), value.to_string()));
        proof {
            broadcast use vstd::string::group_string_axioms;
        }
        assert(self@ =~= old(self)@.push((name@, value@)));
    }

    /// Sets the field `name` to `value`, dropping every earlier field of that name.
    pub fn insert(&mut self, name: &str, value: &str)
        ensures
            final(self)@ == without_name(old(self)@, name@).push((name@, value@)),
    {
        let ghost old_view = self@;
        let mut kept: Vec<(String, String)> = Vec::new();
        let mut i: usize = 0;
        while i < self.entries.len()
            invariant
                self@ == old_view,
                i <= self.entries.len(),
                kept@.map_values(|e: (String, String)| (e.0@, e.1@)) == without_name(
                    old_view.take(i as int),
                    name@,
                ),
            decreases self.entries.len() - i,
        {
            let keep = !str_eq_ignore_ascii_case(self.entries[i].0.as_str(), name);
            proof {
                let pre = old_view.take(i as int);
                assert(old_view.take(i + 1) =~= pre.push(old_view[i as int]));
                let f = |e: (Seq<char>, Seq<char>)| !eq_ignore_ascii_case(e.0, name@);
                pre.lemma_filter_push(old_view[i as int], f);
            }
            if keep {
                let e = (self.entries[i].0.clone(), self.entries[i].1.clone());
                kept.push(e);
                assert(kept@.map_values(|e: (String, String)| (e.0@, e.1@)) =~= without_name(
                    old_view.take(i as int),
                    name@,
                ).push(old_view[i as int]));
            } else {
                assert(kept@.map_values(|e: (String, String)| (e.0@, e.1@)) =~= without_name(
                    old_view.take(i as int + 1),
                    name@,
                ));
            }
            i = i + 1;
        }
        assert(old_view.take(i as int) =~= old_view);
        kept.push((name.to_string(), value.to_string()));
        proof {
            broadcast use vstd::string::group_string_axioms;
        }
        self.entries = kept;
        assert(self@ =~= without_name(old_view, name@).push((name@, value@)));
    }

    /// The value of the first field named `name`, compared without regard to ASCII case.
    pub fn get(&self, name: &str) -> (r: Option<&str>)
        ensures
            match r {
                Some(v) => header_value(self@, name@) == Some(v@),
                None => header_value(self@, name@) is None,
            },
    {
        let mut i: usize = 0;
        assert(self@.skip(0) =~= self@);
        while i < self.entries.len()
            invariant
                i <= self.entries.len(),
                header_value(self@, name@) == header_value(self@.skip(i as int), name@),
            decreases self.entries.len() - i,
        {
            assert(self@.skip(i as int)[0] == self@[i as int]);
            if str_eq_ignore_ascii_case(self.entries[i].0.as_str(), name) {
                return Some(self.entries[i].1.as_str());
            }
            assert(self@.skip(i as int).drop_first() =~= self@.skip(i + 1));
            i = i + 1;
        }
        assert(self@.skip(i as int).len() == 0);
        None
    }
}

/// Reading `hs` with `x` appended: the first match in `hs`, else `x` when it matches.
proof fn lemma_header_value_push(hs: Seq<(Seq<char>, Seq<char>)>, x: (Seq<char>, Seq<char>), m: Seq<char>)
    ensures
        header_value(hs.push(x), m) == match header_value(hs, m) {
            Some(v) => Some(v),
            None => if eq_ignore_ascii_case(x.0, m) {
                Some(x.1)
            } else {
                None
            },
        },
    decreases hs.len(),
{
    if hs.len() > 0 {
        assert(hs.push(x)[0] == hs[0]);
        assert(hs.push(x).drop_first() =~= hs.drop_first().push(x));
        lemma_header_value_push(hs.drop_first(), x, m);
    } else {
        assert(hs.push(x)[0] == x);
        assert(hs.push(x).drop_first() =~= hs);
        assert(header_value(hs, m) is None);
    }
}

/// Names that equal a third name up to ASCII case equal each other.
proof fn lemma_eq_ignore_case_trans(a: Seq<char>, b: Seq<char>, c: Seq<char>)
    requires
        eq_ignore_ascii_case(a, b),
        eq_ignore_ascii_case(c, b),
    ensures
        eq_ignore_ascii_case(a, c),
{
    assert forall|i: int| 0 <= i < a.len() implies ascii_lower(a[i]) == ascii_lower(c[i]) by {
        assert(ascii_lower(a[i]) == ascii_lower(b[i]));
        assert(ascii_lower(c[i]) == ascii_lower(b[i]));
    }
}

/// No entry of `hs` matches `m`.
proof fn lemma_header_value_none(hs: Seq<(Seq<char>, Seq<char>)>, m: Seq<char>)
    requires
        forall|i: int| 0 <= i < hs.len() ==> !eq_ignore_ascii_case(#[trigger] hs[i].0, m),
    ensures
        header_value(hs, m) is None,
    decreases hs.len(),
{
    if hs.len() > 0 {
        assert(!eq_ignore_ascii_case(hs[0].0, m));
        assert forall|i: int| 0 <= i < hs.drop_first().len() implies !eq_ignore_ascii_case(
            #[trigger] hs.drop_first()[i].0,
            m,
        ) by {
            assert(hs.drop_first()[i] == hs[i + 1]);
        }
        lemma_header_value_none(hs.drop_first(), m);
    }
}

/// Dropping the entries named `n` leaves the reading of any other name alone.
proof fn lemma_without_other_name(hs: Seq<(Seq<char>, Seq<char>)>, n: Seq<char>, m: Seq<char>)
    requires
        !eq_ignore_ascii_case(m, n),
    ensures
        header_value(without_name(hs, n), m) == header_value(hs, m),
    decreases hs.len(),
{
    if hs.len() > 0 {
        let p = hs.drop_last();
        let x = hs.last();
        let f = |e: (Seq<char>, Seq<char>)| !eq_ignore_ascii_case(e.0, n);
        assert(p.push(x) =~= hs);
        p.lemma_filter_push(x, f);
        lemma_without_other_name(p, n, m);
        lemma_header_value_push(p, x, m);
        if f(x) {
            lemma_header_value_push(p.filter(f), x, m);
        } else if eq_ignore_ascii_case(x.0, m) {
            lemma_eq_ignore_case_trans(m, x.0, n);
            assert forall|i: int| 0 <= i < m.len() implies ascii_lower(m[i]) == ascii_lower(n[i]) by {
                assert(ascii_lower(x.0[i]) == ascii_lower(m[i]));
                assert(ascii_lower(x.0[i]) == ascii_lower(n[i]));
            }
        }
    } else {
        assert(without_name(hs, n) =~= hs);
    }
}

/// Setting a field and reading it back: after `insert(n, v)`, a name equal to
/// `n` up to ASCII case reads `v`, and every other name reads as before.
pub proof fn law_get_after_insert(
    hs: Seq<(Seq<char>, Seq<char>)>,
    n: Seq<char>,
    v: Seq<char>,
    m: Seq<char>,
)
    ensures
        eq_ignore_ascii_case(m, n) ==> header_value(without_name(hs, n).push((n, v)), m) == Some(v),
        !eq_ignore_ascii_case(m, n) ==> header_value(without_name(hs, n).push((n, v)), m)
            == header_value(hs, m),
{
    let w = without_name(hs, n);
    lemma_header_value_push(w, (n, v), m);
    if eq_ignore_ascii_case(m, n) {
        let f = |e: (Seq<char>, Seq<char>)| !eq_ignore_ascii_case(e.0, n);
        assert forall|i: int| 0 <= i < w.len() implies !eq_ignore_ascii_case(#[trigger] w[i].0, m) by {
            hs.lemma_filter_pred(f, i);
            assert(f(w[i]));
            if eq_ignore_ascii_case(w[i].0, m) {
                assert forall|j: int| 0 <= j < w[i].0.len() implies ascii_lower(w[i].0[j]) == ascii_lower(
                    n[j],
                ) by {
                    assert(ascii_lower(w[i].0[j]) == ascii_lower(m[j]));
                    assert(ascii_lower(m[j]) == ascii_lower(n[j]));
                }
            }
        }
        lemma_header_value_none(w, m);
        assert forall|j: int| 0 <= j < n.len() implies ascii_lower(n[j]) == ascii_lower(m[j]) by {
            assert(ascii_lower(m[j]) == ascii_lower(n[j]));
        }
    } else {
        lemma_without_other_name(hs, n, m);
    }
}

} // verus!
