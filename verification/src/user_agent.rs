//! Splitting a `User-Agent` value into product, version and comment, and
//! recognising command-line HTTP clients.
use vstd::prelude::*;

use crate::text::{chars_of, split_once, split_once_str, str_eq};

verus! {

/// The parts of a `User-Agent` header value.
#[derive(Debug, PartialEq)]
pub struct UserAgent {
    pub product: String,
    pub version: String,
    pub comment: String,
    pub raw_value: String,
}

/// What a parsed `User-Agent` value says.
pub struct UserAgentView {
    pub product: Seq<char>,
    pub version: Seq<char>,
    pub comment: Seq<char>,
    pub raw_value: Seq<char>,
}

impl View for UserAgent {
    type V = UserAgentView;

    open spec fn view(&self) -> UserAgentView {
        UserAgentView {
            product: self.product@,
            version: self.version@,
            comment: self.comment@,
            raw_value: self.raw_value@,
        }
    }
}

impl Clone for UserAgent {
    fn clone(&self) -> (r: UserAgent)
        ensures
            r@ == self@,
    {
        UserAgent {
            product: self.product.clone(),
            version: self.version.clone(),
            comment: self.comment.clone(),
            raw_value: self.raw_value.clone(),
        }
    }
}

impl Default for UserAgent {
    fn default() -> (r: UserAgent)
        ensures
            r@ == ua_view(Seq::empty()),
    {
        UserAgent {
            product: String::new(),
            version: String::new(),
            comment: String::new(),
            raw_value: String::new(),
        }
    }
}

/// An ASCII decimal digit.
pub open spec fn is_ascii_digit(c: char) -> bool {
    '0' <= c && c <= '9'
}

/// Product, version and comment of a `User-Agent` value. The product runs up to
/// the first `/`; when a digit follows the slash, the version runs up to the
/// next space and the comment is the rest, otherwise everything after the
/// slash is the comment. Without a slash, the product runs up to the first
/// space and the rest is the comment.
pub open spec fn ua_fields(s: Seq<char>) -> (Seq<char>, Seq<char>, Seq<char>) {
    match split_once(s, '/') {
        Some((before, after)) => if after.len() > 0 && is_ascii_digit(after[0]) {
            match split_once(after, ' ') {
                Some((ver, cmt)) => (before, ver, cmt),
                None => (before, after, Seq::empty()),
            }
        } else {
            (before, Seq::empty(), after)
        },
        None => match split_once(s, ' ') {
            Some((before, after)) => (before, Seq::empty(), after),
            None => (s, Seq::empty(), Seq::empty()),
        },
    }
}

/// The parse of a `User-Agent` value: all parts empty for an empty value,
/// else the parts of `ua_fields` and the value itself.
pub open spec fn ua_view(s: Seq<char>) -> UserAgentView {
    if s.len() == 0 {
        UserAgentView {
            product: Seq::empty(),
            version: Seq::empty(),
            comment: Seq::empty(),
            raw_value: Seq::empty(),
        }
    } else {
        UserAgentView {
            product: ua_fields(s).0,
            version: ua_fields(s).1,
            comment: ua_fields(s).2,
            raw_value: s,
        }
    }
}

/// Splits a `User-Agent` value into its parts; see `ua_fields`.
pub fn parse(s: &str) -> (r: UserAgent)
    ensures
        r@ == ua_view(s@),
{
    proof {
        broadcast use vstd::string::group_string_axioms;
    }
    if s.is_empty() {
        let r = UserAgent::default();
        assert(r@ =~= ua_view(s@));
        return r;
    }
    let (product, version, comment) = match split_once_str(s, '/') {
        Some((before, after)) => {
            let cs = chars_of(after);
            if cs.len() > 0 && '0' <= cs[0] && cs[0] <= '9' {
                match split_once_str(after, ' ') {
                    Some((ver, cmt)) => (before.to_string(), ver.to_string(), cmt.to_string()),
                    None => (before.to_string(), after.to_string(), String::new()),
                }
            } else {
                (before.to_string(), String::new(), after.to_string())
            }
        },
        None => match split_once_str(s, ' ') {
            Some((before, after)) => (before.to_string(), String::new(), after.to_string()),
            None => (s.to_string(), String::new(), String::new()),
        },
    };
    UserAgent { product, version, comment, raw_value: s.to_string() }
}

/// The products of command-line HTTP clients.
pub open spec fn is_cli_product(p: Seq<char>) -> bool {
    ||| p == "curl"@
    ||| p == "HTTPie"@
    ||| p == "httpie-go"@
    ||| p == "Wget"@
    ||| p == "fetch libfetch"@
    ||| p == "Go"@
    ||| p == "Go-http-client"@
    ||| p == "ddclient"@
    ||| p == "Mikrotik"@
    ||| p == "xh"@
}

/// Whether a `User-Agent` value comes from a command-line HTTP client: its
/// product is one of curl, HTTPie, httpie-go, Wget, fetch libfetch, Go,
/// Go-http-client, ddclient, Mikrotik and xh.
pub fn is_cli(ua_str: &str) -> (r: bool)
    ensures
        r == (ua_str@.len() > 0 && is_cli_product(ua_fields(ua_str@).0)),
{
    let ua = parse(ua_str);
    let p = ua.product.as_str();
    let r = str_eq(p, "curl") || str_eq(p, "HTTPie") || str_eq(p, "httpie-go") || str_eq(p, "Wget")
        || str_eq(p, "fetch libfetch") || str_eq(p, "Go") || str_eq(p, "Go-http-client") || str_eq(
        p,
        "ddclient",
    ) || str_eq(p, "Mikrotik") || str_eq(p, "xh");
    proof {
        reveal_strlit("curl");
        reveal_strlit("HTTPie");
        reveal_strlit("httpie-go");
        reveal_strlit("Wget");
        reveal_strlit("fetch libfetch");
        reveal_strlit("Go");
        reveal_strlit("Go-http-client");
        reveal_strlit("ddclient");
        reveal_strlit("Mikrotik");
        reveal_strlit("xh");
        assert(p@ == ua_view(ua_str@).product);
        if ua_str@.len() == 0 {
            assert(p@.len() == 0);
            assert("xh"@.len() == 2);
            assert("Go"@.len() == 2);
            assert(!is_cli_product(p@));
        }
    }
    r
}

/// A value `product/version` whose version starts with a decimal digit (any
/// of `0` to `9`) keeps that version up to the first space: the product is
/// the text before the first slash, the version runs from the digit to the
/// first space after it (or to the end), and the comment is the rest.
pub proof fn law_digit_after_slash_starts_version(
    product: Seq<char>,
    d: char,
    rest: Seq<char>,
    comment: Seq<char>,
)
    requires
        crate::text::lacks(product, '/'),
        '0' <= d <= '9',
        crate::text::lacks(rest, ' '),
    ensures
        ua_view(product + seq!['/'] + (seq![d] + rest)) == (UserAgentView {
            product,
            version: seq![d] + rest,
            comment: Seq::empty(),
            raw_value: product + seq!['/'] + (seq![d] + rest),
        }),
        ua_view(product + seq!['/'] + (seq![d] + rest + seq![' '] + comment)) == (UserAgentView {
            product,
            version: seq![d] + rest,
            comment,
            raw_value: product + seq!['/'] + (seq![d] + rest + seq![' '] + comment),
        }),
{
    let v = seq![d] + rest;
    crate::text::lemma_split_once_at(product, '/', v);
    crate::text::lemma_split_once_at(product, '/', v + seq![' '] + comment);
    assert(crate::text::lacks(v, ' ')) by {
        assert forall|i: int| 0 <= i < v.len() implies v[i] != ' ' by {
            if i > 0 {
                assert(v[i] == rest[i - 1]);
            }
        }
    }
    crate::text::lemma_split_once_none(v, ' ');
    crate::text::lemma_split_once_at(v, ' ', comment);
    assert((product + seq!['/'] + v).len() > 0);
    assert((product + seq!['/'] + (v + seq![' '] + comment)).len() > 0);
    assert(v[0] == d);
    assert((v + seq![' '] + comment)[0] == d);
}

/// A value whose text after the first slash does not start with a decimal
/// digit has no version: the product is the text before the slash and the
/// comment all of the text after it. A value without a slash has no version
/// either: the product runs to the first space and the comment is the rest.
pub proof fn law_no_version_without_digit(product: Seq<char>, after: Seq<char>, head: Seq<char>, tail: Seq<char>)
    requires
        crate::text::lacks(product, '/'),
        after.len() == 0 || !('0' <= after[0] <= '9'),
        crate::text::lacks(head, '/'),
        crate::text::lacks(head, ' '),
        crate::text::lacks(tail, '/'),
    ensures
        ua_view(product + seq!['/'] + after) == (UserAgentView {
            product,
            version: Seq::empty(),
            comment: after,
            raw_value: product + seq!['/'] + after,
        }),
        head.len() > 0 ==> ua_view(head + seq![' '] + tail) == (UserAgentView {
            product: head,
            version: Seq::empty(),
            comment: tail,
            raw_value: head + seq![' '] + tail,
        }),
        head.len() > 0 ==> ua_view(head) == (UserAgentView {
            product: head,
            version: Seq::empty(),
            comment: Seq::empty(),
            raw_value: head,
        }),
{
    crate::text::lemma_split_once_at(product, '/', after);
    assert((product + seq!['/'] + after).len() > 0);
    let w = head + seq![' '] + tail;
    assert(crate::text::lacks(w, '/')) by {
        assert forall|i: int| 0 <= i < w.len() implies w[i] != '/' by {
            if i < head.len() {
                assert(w[i] == head[i]);
            } else if i > head.len() {
                assert(w[i] == tail[i - head.len() - 1]);
            }
        }
    }
    crate::text::lemma_split_once_none(w, '/');
    crate::text::lemma_split_once_at(head, ' ', tail);
    crate::text::lemma_split_once_none(head, '/');
    crate::text::lemma_split_once_none(head, ' ');
}

} // verus!
