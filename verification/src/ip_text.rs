//! The textual forms of IP addresses: dotted-decimal IPv4 (four fields of at
//! most three digits, each at most 255, without leading zeros) and IPv6 (up to
//! eight colon-separated groups of at most four hex digits, one `::` standing
//! for at least one zero group, and an optional trailing dotted-decimal
//! IPv4 part). The grammar is read greedily, left to right, and the whole text
//! must be consumed.
use vstd::prelude::*;

use crate::ip::{octets, IpAddress};
use crate::response::{decimal, digit_char};
use crate::text::chars_of;

verus! {

/// Value of `c` as a digit in base 10 (`hex == false`) or base 16.
pub open spec fn digit_value(c: char, hex: bool) -> Option<nat> {
    if '0' <= c && c <= '9' {
        Some(((c as int) - ('0' as int)) as nat)
    } else if hex && 'a' <= c && c <= 'f' {
        Some(((c as int) - ('a' as int) + 10) as nat)
    } else if hex && 'A' <= c && c <= 'F' {
        Some(((c as int) - ('A' as int) + 10) as nat)
    } else {
        None
    }
}

/// Length of the run of digits that starts at `pos`.
pub open spec fn run_len(s: Seq<char>, pos: int, hex: bool) -> nat
    decreases s.len() - pos,
{
    if 0 <= pos < s.len() && digit_value(s[pos], hex) is Some {
        1 + run_len(s, pos + 1, hex)
    } else {
        0
    }
}

/// The number written by the `n` digits at `pos`.
pub open spec fn digits_value(s: Seq<char>, pos: int, n: nat, hex: bool) -> nat
    decreases n,
{
    if n == 0 {
        0
    } else {
        digits_value(s, pos, (n - 1) as nat, hex) * (if hex { 16nat } else { 10nat })
            + digit_value(s[pos + n - 1], hex)->0
    }
}

/// A decimal IPv4 field at `pos`: its value and the position after it.
pub open spec fn dec_octet(s: Seq<char>, pos: int) -> Option<(u8, int)> {
    let n = run_len(s, pos, false);
    if n == 0 || n > 3 || (n > 1 && s[pos] == '0') {
        None
    } else if digits_value(s, pos, n, false) > 255 {
        None
    } else {
        Some((digits_value(s, pos, n, false) as u8, pos + n))
    }
}

/// A hexadecimal IPv6 group at `pos`: its value and the position after it.
pub open spec fn hex_group(s: Seq<char>, pos: int) -> Option<(u16, int)> {
    let n = run_len(s, pos, true);
    if n == 0 || n > 4 {
        None
    } else {
        Some((digits_value(s, pos, n, true) as u16, pos + n))
    }
}

/// Where item `i` of a list starts: at `pos` for the first item, after the
/// separator `sep` for the others.
pub open spec fn after_sep(s: Seq<char>, pos: int, i: int, sep: char) -> Option<int> {
    if i == 0 {
        Some(pos)
    } else if 0 <= pos < s.len() && s[pos] == sep {
        Some(pos + 1)
    } else {
        None
    }
}

/// IPv4 fields `i..4` from `pos`: their values and the position after them.
pub open spec fn ipv4_fields(s: Seq<char>, pos: int, i: int) -> Option<(Seq<u8>, int)>
    decreases 4 - i,
{
    if i >= 4 {
        Some((Seq::empty(), pos))
    } else {
        match after_sep(s, pos, i, '.') {
            None => None,
            Some(p) => match dec_octet(s, p) {
                None => None,
                Some((v, q)) => match ipv4_fields(s, q, i + 1) {
                    None => None,
                    Some((vs, e)) => Some((seq![v] + vs, e)),
                },
            },
        }
    }
}

/// A dotted-decimal IPv4 address at `pos`: its octets and the position after it.
pub open spec fn ipv4_at(s: Seq<char>, pos: int) -> Option<(Seq<u8>, int)> {
    ipv4_fields(s, pos, 0)
}

/// An embedded IPv4 address as group `i`: tried only while two group slots are left.
pub open spec fn embedded_v4(s: Seq<char>, pos: int, i: int, limit: int) -> Option<(Seq<u8>, int)> {
    if i < limit - 1 {
        match after_sep(s, pos, i, ':') {
            Some(p) => ipv4_at(s, p),
            None => None,
        }
    } else {
        None
    }
}

/// Colon-separated IPv6 groups `i..limit` from `pos`, greedily, the last two of
/// which may be an embedded IPv4 address: the groups read, the position after
/// them, and whether an IPv4 part ended them.
pub open spec fn read_groups(s: Seq<char>, pos: int, i: int, limit: int) -> (Seq<u16>, int, bool)
    decreases limit - i,
{
    if i >= limit {
        (Seq::empty(), pos, false)
    } else {
        match embedded_v4(s, pos, i, limit) {
            Some((o, e)) => (
                seq![((o[0] as int) * 256 + (o[1] as int)) as u16, ((o[2] as int) * 256 + (o[3] as int)) as u16],
                e,
                true,
            ),
            None => match after_sep(s, pos, i, ':') {
                None => (Seq::empty(), pos, false),
                Some(p) => match hex_group(s, p) {
                    None => (Seq::empty(), pos, false),
                    Some((g, e)) => {
                        let rest = read_groups(s, e, i + 1, limit);
                        (seq![g] + rest.0, rest.1, rest.2)
                    },
                },
            },
        }
    }
}

/// The eight groups of an IPv6 address written as the whole of `s`.
pub open spec fn ipv6_text(s: Seq<char>) -> Option<Seq<u16>> {
    let head = read_groups(s, 0, 0, 8);
    let h = head.0.len();
    if h == 8 {
        if head.1 == s.len() { Some(head.0) } else { None }
    } else if head.2 {
        None
    } else if head.1 + 1 < s.len() && s[head.1] == ':' && s[head.1 + 1] == ':' {
        let tail = read_groups(s, head.1 + 2, 0, 7 - h);
        if tail.1 == s.len() {
            Some(head.0 + Seq::new((8 - h - tail.0.len()) as nat, |k: int| 0u16) + tail.0)
        } else {
            None
        }
    } else {
        None
    }
}

/// The octets of IPv6 groups, each group most significant byte first.
pub open spec fn group_octets(gs: Seq<u16>) -> Seq<u8> {
    Seq::new(2 * gs.len(), |k: int| if k % 2 == 0 { (gs[k / 2] / 256) as u8 } else { (gs[k / 2] % 256) as u8 })
}

/// The octets of the address that the whole of `s` denotes: four for IPv4,
/// sixteen for IPv6. A text with a leading IPv4 address and anything after it
/// denotes nothing.
pub open spec fn ip_text(s: Seq<char>) -> Option<Seq<u8>> {
    match ipv4_at(s, 0) {
        Some((o, e)) => if e == s.len() { Some(o) } else { None },
        None => match ipv6_text(s) {
            Some(gs) => Some(group_octets(gs)),
            None => None,
        },
    }
}

/// `radix` to the power `n`, where the radix is 16 when `hex`, else 10.
pub open spec fn radix_pow(n: nat, hex: bool) -> nat
    decreases n,
{
    if n == 0 {
        1
    } else {
        radix_pow((n - 1) as nat, hex) * (if hex { 16nat } else { 10nat })
    }
}

proof fn lemma_digits_value_bound(s: Seq<char>, pos: int, n: nat, hex: bool)
    requires
        forall|k: int| pos <= k < pos + n ==> digit_value(#[trigger] s[k], hex) is Some,
    ensures
        digits_value(s, pos, n, hex) < radix_pow(n, hex),
    decreases n,
{
    if n > 0 {
        lemma_digits_value_bound(s, pos, (n - 1) as nat, hex);
        let a = digits_value(s, pos, (n - 1) as nat, hex);
        let p = radix_pow((n - 1) as nat, hex);
        let r: nat = if hex { 16 } else { 10 };
        let d = digit_value(s[pos + n - 1], hex)->0;
        assert(d < r);
        assert(a * r + d < p * r) by (nonlinear_arith)
            requires
                a < p,
                d < r,
        ;
    }
}

proof fn lemma_run_digits(s: Seq<char>, pos: int, hex: bool)
    requires
        0 <= pos,
    ensures
        forall|k: int| pos <= k < pos + run_len(s, pos, hex) ==> digit_value(#[trigger] s[k], hex) is Some,
        pos + run_len(s, pos, hex) <= s.len() || run_len(s, pos, hex) == 0,
    decreases s.len() - pos,
{
    if 0 <= pos < s.len() && digit_value(s[pos], hex) is Some {
        lemma_run_digits(s, pos + 1, hex);
    }
}

/// The value of `c` as a digit, if it is one.
fn digit_of(c: char, hex: bool) -> (r: Option<u32>)
    ensures
        match r {
            Some(v) => digit_value(c, hex) == Some(v as nat),
            None => digit_value(c, hex) is None,
        },
{
    if '0' <= c && c <= '9' {
        Some((c as u32) - ('0' as u32))
    } else if hex && 'a' <= c && c <= 'f' {
        Some((c as u32) - ('a' as u32) + 10)
    } else if hex && 'A' <= c && c <= 'F' {
        Some((c as u32) - ('A' as u32) + 10)
    } else {
        None
    }
}

fn run_len_of(cs: &Vec<char>, pos: usize, hex: bool) -> (r: usize)
    requires
        pos <= cs.len(),
    ensures
        r == run_len(cs@, pos as int, hex),
        pos + r <= cs.len(),
{
    let mut j = pos;
    while j < cs.len() && digit_of(cs[j], hex).is_some()
        invariant
            pos <= j <= cs.len(),
            run_len(cs@, pos as int, hex) == (j - pos) + run_len(cs@, j as int, hex),
        decreases cs.len() - j,
    {
        j = j + 1;
    }
    j - pos
}

fn digits_value_of(cs: &Vec<char>, pos: usize, n: usize, hex: bool) -> (r: u32)
    requires
        n <= 4,
        pos + n <= cs.len(),
        forall|k: int| pos <= k < pos + n ==> digit_value(#[trigger] cs@[k], hex) is Some,
    ensures
        r == digits_value(cs@, pos as int, n as nat, hex),
{
    let radix: u32 = if hex { 16 } else { 10 };
    let mut acc: u32 = 0;
    let mut k: usize = 0;
    while k < n
        invariant
            k <= n <= 4,
            pos + n <= cs.len(),
            radix == (if hex { 16u32 } else { 10u32 }),
            forall|j: int| pos <= j < pos + n ==> digit_value(#[trigger] cs@[j], hex) is Some,
            acc == digits_value(cs@, pos as int, k as nat, hex),
        decreases n - k,
    {
        proof {
            lemma_digits_value_bound(cs@, pos as int, k as nat, hex);
            reveal_with_fuel(radix_pow, 4);
            assert(radix_pow(3, hex) <= 4096);
            lemma_radix_pow_mono(k as nat, 3, hex);
        }
        let d = digit_of(cs[pos + k], hex).unwrap();
        acc = acc * radix + d;
        k = k + 1;
    }
    acc
}

proof fn lemma_radix_pow_mono(a: nat, b: nat, hex: bool)
    requires
        a <= b,
    ensures
        radix_pow(a, hex) <= radix_pow(b, hex),
    decreases b,
{
    if a < b {
        lemma_radix_pow_mono(a, (b - 1) as nat, hex);
    }
}

/// A decimal IPv4 field at `pos`.
fn dec_octet_at(cs: &Vec<char>, pos: usize) -> (r: Option<(u8, usize)>)
    requires
        pos <= cs.len(),
    ensures
        match r {
            Some((v, e)) => dec_octet(cs@, pos as int) == Some((v, e as int)) && e <= cs.len(),
            None => dec_octet(cs@, pos as int) is None,
        },
{
    let n = run_len_of(cs, pos, false);
    if n == 0 || n > 3 || (n > 1 && cs[pos] == '0') {
        return None;
    }
    proof {
        lemma_run_digits(cs@, pos as int, false);
    }
    let v = digits_value_of(cs, pos, n, false);
    if v > 255 {
        None
    } else {
        Some((v as u8, pos + n))
    }
}

/// A hexadecimal IPv6 group at `pos`.
fn hex_group_at(cs: &Vec<char>, pos: usize) -> (r: Option<(u16, usize)>)
    requires
        pos <= cs.len(),
    ensures
        match r {
            Some((v, e)) => hex_group(cs@, pos as int) == Some((v, e as int)) && e <= cs.len(),
            None => hex_group(cs@, pos as int) is None,
        },
{
    let n = run_len_of(cs, pos, true);
    if n == 0 || n > 4 {
        return None;
    }
    proof {
        lemma_run_digits(cs@, pos as int, true);
        lemma_digits_value_bound(cs@, pos as int, n as nat, true);
        lemma_radix_pow_mono(n as nat, 4, true);
        reveal_with_fuel(radix_pow, 5);
        assert(radix_pow(4, true) == 65536);
    }
    let v = digits_value_of(cs, pos, n, true);
    Some((v as u16, pos + n))
}

fn after_sep_at(cs: &Vec<char>, pos: usize, i: usize, sep: char) -> (r: Option<usize>)
    requires
        pos <= cs.len(),
    ensures
        match r {
            Some(p) => after_sep(cs@, pos as int, i as int, sep) == Some(p as int) && p <= cs.len(),
            None => after_sep(cs@, pos as int, i as int, sep) is None,
        },
{
    if i == 0 {
        Some(pos)
    } else if pos < cs.len() && cs[pos] == sep {
        Some(pos + 1)
    } else {
        None
    }
}

fn ipv4_fields_at(cs: &Vec<char>, pos: usize, i: usize) -> (r: Option<(Vec<u8>, usize)>)
    requires
        pos <= cs.len(),
        i <= 4,
    ensures
        match r {
            Some((v, e)) => ipv4_fields(cs@, pos as int, i as int) == Some((v@, e as int)) && e
                <= cs.len() && v@.len() == 4 - i,
            None => ipv4_fields(cs@, pos as int, i as int) is None,
        },
    decreases 4 - i,
{
    if i >= 4 {
        return Some((Vec::new(), pos));
    }
    match after_sep_at(cs, pos, i, '.') {
        None => None,
        Some(p) => match dec_octet_at(cs, p) {
            None => None,
            Some((v, q)) => match ipv4_fields_at(cs, q, i + 1) {
                None => None,
                Some((vs, e)) => {
                    let mut out = vs;
                    out.insert(0, v);
                    assert(out@ =~= seq![v] + vs@);
                    Some((out, e))
                },
            },
        },
    }
}

fn embedded_v4_at(cs: &Vec<char>, pos: usize, i: usize, limit: usize) -> (r: Option<(Vec<u8>, usize)>)
    requires
        pos <= cs.len(),
        i <= limit <= 8,
    ensures
        match r {
            Some((v, e)) => embedded_v4(cs@, pos as int, i as int, limit as int) == Some((v@, e as int))
                && e <= cs.len() && v@.len() == 4,
            None => embedded_v4(cs@, pos as int, i as int, limit as int) is None,
        },
{
    if i + 1 < limit {
        match after_sep_at(cs, pos, i, ':') {
            Some(p) => ipv4_fields_at(cs, p, 0),
            None => None,
        }
    } else {
        None
    }
}

fn read_groups_at(cs: &Vec<char>, pos: usize, i: usize, limit: usize) -> (r: (Vec<u16>, usize, bool))
    requires
        pos <= cs.len(),
        i <= limit <= 8,
    ensures
        read_groups(cs@, pos as int, i as int, limit as int) == (r.0@, r.1 as int, r.2),
        r.1 <= cs.len(),
        r.0@.len() <= limit - i,
    decreases limit - i,
{
    if i >= limit {
        return (Vec::new(), pos, false);
    }
    match embedded_v4_at(cs, pos, i, limit) {
        Some((o, e)) => {
            let mut gs: Vec<u16> = Vec::new();
            gs.push((o[0] as u16) * 256 + (o[1] as u16));
            gs.push((o[2] as u16) * 256 + (o[3] as u16));
            assert(gs@ =~= seq![((o@[0] as int) * 256 + (o@[1] as int)) as u16, ((o@[2] as int) * 256 + (o@[3] as int)) as u16]);
            (gs, e, true)
        },
        None => match after_sep_at(cs, pos, i, ':') {
            None => (Vec::new(), pos, false),
            Some(p) => match hex_group_at(cs, p) {
                None => (Vec::new(), pos, false),
                Some((g, e)) => {
                    let (rest, e2, b) = read_groups_at(cs, e, i + 1, limit);
                    let mut out = rest;
                    out.insert(0, g);
                    assert(out@ =~= seq![g] + rest@);
                    (out, e2, b)
                },
            },
        },
    }
}

fn ipv6_groups(cs: &Vec<char>) -> (r: Option<Vec<u16>>)
    ensures
        match r {
            Some(g) => ipv6_text(cs@) == Some(g@) && g@.len() == 8,
            None => ipv6_text(cs@) is None,
        },
{
    let (head, hp, hv4) = read_groups_at(cs, 0, 0, 8);
    let h = head.len();
    if h == 8 {
        return if hp == cs.len() { Some(head) } else { None };
    }
    if hv4 {
        return None;
    }
    if cs.len() >= 2 && hp < cs.len() - 1 && cs[hp] == ':' && cs[hp + 1] == ':' {
        let (tail, tp, _) = read_groups_at(cs, hp + 2, 0, 7 - h);
        if tp == cs.len() {
            let mut out = head;
            let zeros = 8 - h - tail.len();
            let mut k: usize = 0;
            while k < zeros
                invariant
                    k <= zeros,
                    out@ =~= read_groups(cs@, 0, 0, 8).0 + Seq::new(k as nat, |j: int| 0u16),
                decreases zeros - k,
            {
                out.push(0);
                k = k + 1;
            }
            let mut j: usize = 0;
            let ghost base = out@;
            while j < tail.len()
                invariant
                    j <= tail.len(),
                    out@ =~= base + tail@.take(j as int),
                decreases tail.len() - j,
            {
                out.push(tail[j]);
                j = j + 1;
            }
            assert(tail@.take(j as int) =~= tail@);
            return Some(out);
        }
    }
    None
}

/// The address that the whole of `s` denotes, if any.
pub fn parse_ip_text(s: &str) -> (r: Option<IpAddress>)
    ensures
        match r {
            Some(ip) => ip_text(s@) == Some(octets(ip)),
            None => ip_text(s@) is None,
        },
{
    let cs = chars_of(s);
    match ipv4_fields_at(&cs, 0, 0) {
        Some((o, e)) => {
            if e == cs.len() {
                let a: [u8; 4] = [o[0], o[1], o[2], o[3]];
                assert(a@ =~= o@);
                Some(IpAddress::V4(a))
            } else {
                None
            }
        },
        None => match ipv6_groups(&cs) {
            Some(g) => {
                let a: [u8; 16] = [
                    (g[0] / 256) as u8, (g[0] % 256) as u8, (g[1] / 256) as u8, (g[1] % 256) as u8,
                    (g[2] / 256) as u8, (g[2] % 256) as u8, (g[3] / 256) as u8, (g[3] % 256) as u8,
                    (g[4] / 256) as u8, (g[4] % 256) as u8, (g[5] / 256) as u8, (g[5] % 256) as u8,
                    (g[6] / 256) as u8, (g[6] % 256) as u8, (g[7] / 256) as u8, (g[7] % 256) as u8,
                ];
                assert(a@ =~= group_octets(g@));
                Some(IpAddress::V6(a))
            },
            None => None,
        },
    }
}

/// The dotted-decimal text of an IPv4 address with octets `o`: each octet in
/// decimal without leading zeros, separated by dots.
pub open spec fn ipv4_text(o: Seq<u8>) -> Seq<char> {
    decimal(o[0] as nat) + seq!['.'] + decimal(o[1] as nat) + seq!['.'] + decimal(o[2] as nat) + seq!['.']
        + decimal(o[3] as nat)
}

proof fn lemma_digit_char(d: nat)
    requires
        d < 10,
    ensures
        digit_value(digit_char(d), false) == Some(d),
        d > 0 ==> digit_char(d) != '0',
{
    assert(((d + 48) as u8) as int == d + 48);
}

/// The decimal text of `n`: digits only, one to three of them below 1000,
/// and no leading zero unless it is `0` itself.
pub proof fn lemma_decimal_shape(n: nat)
    ensures
        decimal(n).len() >= 1,
        forall|k: int| 0 <= k < decimal(n).len() ==> digit_value(#[trigger] decimal(n)[k], false) is Some,
        n < 10 ==> decimal(n).len() == 1,
        n < 100 ==> decimal(n).len() <= 2,
        n < 1000 ==> decimal(n).len() <= 3,
        n > 0 ==> decimal(n)[0] != '0',
    decreases n,
{
    if n < 10 {
        lemma_digit_char(n);
    } else {
        lemma_decimal_shape(n / 10);
        lemma_digit_char(n % 10);
        let d = decimal(n);
        let p = decimal(n / 10);
        assert(d == p.push(digit_char(n % 10)));
        assert forall|k: int| 0 <= k < d.len() implies digit_value(#[trigger] d[k], false) is Some by {
            if k < p.len() {
                assert(d[k] == p[k]);
            }
        }
        assert(d[0] == p[0]);
    }
}

/// The digits of `decimal(n)` at `pos` write `n`.
proof fn lemma_digits_value_decimal(s: Seq<char>, pos: int, n: nat)
    requires
        0 <= pos,
        pos + decimal(n).len() <= s.len(),
        s.subrange(pos, pos + decimal(n).len()) == decimal(n),
    ensures
        digits_value(s, pos, decimal(n).len(), false) == n,
    decreases n,
{
    let d = decimal(n);
    lemma_decimal_shape(n);
    if n < 10 {
        assert(d[0] == digit_char(n));
        assert(s[pos] == d[0]) by {
            assert(s.subrange(pos, pos + d.len())[0] == d[0]);
        }
        lemma_digit_char(n);
        assert(digits_value(s, pos, 0, false) == 0);
        assert(digits_value(s, pos, 1, false) == digits_value(s, pos, 0, false) * 10 + digit_value(s[pos], false)->0);
    } else {
        let p = decimal(n / 10);
        lemma_decimal_shape(n / 10);
        assert(s.subrange(pos, pos + p.len()) =~= p) by {
            assert forall|k: int| 0 <= k < p.len() implies s.subrange(pos, pos + p.len())[k] == p[k] by {
                assert(s.subrange(pos, pos + d.len())[k] == d[k]);
            }
        }
        lemma_digits_value_decimal(s, pos, n / 10);
        assert(s[pos + d.len() - 1] == d[d.len() - 1]) by {
            assert(s.subrange(pos, pos + d.len())[d.len() - 1] == d[d.len() - 1]);
        }
        lemma_digit_char(n % 10);
        assert(d.len() == p.len() + 1);
        assert(d[d.len() - 1] == digit_char(n % 10));
        assert(digits_value(s, pos, d.len(), false) == digits_value(s, pos, p.len(), false) * 10
            + digit_value(s[pos + d.len() - 1], false)->0);
    }
}

/// A run of `k` digits at `pos`, followed by the end or a non-digit, has length `k`.
proof fn lemma_run_len_exact(s: Seq<char>, pos: int, k: nat, hex: bool)
    requires
        0 <= pos,
        pos + k <= s.len(),
        forall|j: int| pos <= j < pos + k ==> digit_value(#[trigger] s[j], hex) is Some,
        pos + k == s.len() || digit_value(s[pos + k], hex) is None,
    ensures
        run_len(s, pos, hex) == k,
    decreases k,
{
    if k > 0 {
        lemma_run_len_exact(s, pos + 1, (k - 1) as nat, hex);
    }
}

/// The decimal text of an octet at `pos`, followed by the end or a non-digit,
/// reads as that octet.
proof fn lemma_dec_octet_decimal(s: Seq<char>, pos: int, v: u8)
    requires
        0 <= pos,
        pos + decimal(v as nat).len() <= s.len(),
        s.subrange(pos, pos + decimal(v as nat).len()) == decimal(v as nat),
        pos + decimal(v as nat).len() == s.len() || digit_value(s[pos + decimal(v as nat).len()], false) is None,
    ensures
        dec_octet(s, pos) == Some((v, pos + decimal(v as nat).len())),
{
    let d = decimal(v as nat);
    lemma_decimal_shape(v as nat);
    assert forall|j: int| pos <= j < pos + d.len() implies digit_value(#[trigger] s[j], false) is Some by {
        assert(s.subrange(pos, pos + d.len())[j - pos] == d[j - pos]);
    }
    lemma_run_len_exact(s, pos, d.len(), false);
    lemma_digits_value_decimal(s, pos, v as nat);
    assert(s[pos] == d[0]) by {
        assert(s.subrange(pos, pos + d.len())[0] == d[0]);
    }
}

/// The characters of an IPv4 text are digits and dots.
pub proof fn lemma_ipv4_text_chars(o: Seq<u8>)
    requires
        o.len() == 4,
    ensures
        forall|k: int|
            0 <= k < ipv4_text(o).len() ==> digit_value(#[trigger] ipv4_text(o)[k], false) is Some
                || ipv4_text(o)[k] == '.',
{
    let d0 = decimal(o[0] as nat);
    let d1 = decimal(o[1] as nat);
    let d2 = decimal(o[2] as nat);
    let d3 = decimal(o[3] as nat);
    lemma_decimal_shape(o[0] as nat);
    lemma_decimal_shape(o[1] as nat);
    lemma_decimal_shape(o[2] as nat);
    lemma_decimal_shape(o[3] as nat);
    let t = ipv4_text(o);
    let a = d0.len() as int;
    let b = a + 1 + d1.len();
    let c = b + 1 + d2.len();
    assert forall|k: int| 0 <= k < t.len() implies digit_value(#[trigger] t[k], false) is Some || t[k] == '.' by {
        if k < a {
            assert(t[k] == d0[k]);
        } else if k == a || k == b || k == c {
        } else if k < b {
            assert(t[k] == d1[k - a - 1]);
        } else if k < c {
            assert(t[k] == d2[k - b - 1]);
        } else {
            assert(t[k] == d3[k - c - 1]);
        }
    }
}

/// An IPv4 text at the start of `s`, followed by the end or by a character
/// that is neither a digit nor a dot, reads as its address.
#[verifier::rlimit(80)]
pub proof fn lemma_ipv4_at_text(s: Seq<char>, o: Seq<u8>)
    requires
        o.len() == 4,
        ipv4_text(o).len() <= s.len(),
        s.subrange(0, ipv4_text(o).len() as int) == ipv4_text(o),
        ipv4_text(o).len() == s.len() || (digit_value(s[ipv4_text(o).len() as int], false) is None
            && s[ipv4_text(o).len() as int] != '.'),
    ensures
        ipv4_at(s, 0) == Some((o, ipv4_text(o).len() as int)),
{
    let t = ipv4_text(o);
    let d0 = decimal(o[0] as nat);
    let d1 = decimal(o[1] as nat);
    let d2 = decimal(o[2] as nat);
    let d3 = decimal(o[3] as nat);
    let e0 = d0.len() as int;
    let p1 = e0 + 1;
    let e1 = p1 + d1.len();
    let p2 = e1 + 1;
    let e2 = p2 + d2.len();
    let p3 = e2 + 1;
    let e3 = p3 + d3.len();
    assert(e3 == t.len());
    assert forall|k: int| 0 <= k < t.len() implies s[k] == t[k] by {
        assert(s.subrange(0, t.len() as int)[k] == t[k]);
    }
    assert(t[e0] == '.' && t[e1] == '.' && t[e2] == '.');
    assert(digit_value('.', false) is None);
    assert(s.subrange(0, e0) =~= d0) by {
        assert forall|k: int| 0 <= k < e0 implies s.subrange(0, e0)[k] == d0[k] by {
            assert(t[k] == d0[k]);
        }
    }
    assert(s.subrange(p1, e1) =~= d1) by {
        assert forall|k: int| 0 <= k < d1.len() implies s.subrange(p1, e1)[k] == d1[k] by {
            assert(t[p1 + k] == d1[k]);
        }
    }
    assert(s.subrange(p2, e2) =~= d2) by {
        assert forall|k: int| 0 <= k < d2.len() implies s.subrange(p2, e2)[k] == d2[k] by {
            assert(t[p2 + k] == d2[k]);
        }
    }
    assert(s.subrange(p3, e3) =~= d3) by {
        assert forall|k: int| 0 <= k < d3.len() implies s.subrange(p3, e3)[k] == d3[k] by {
            assert(t[p3 + k] == d3[k]);
        }
    }
    lemma_dec_octet_decimal(s, 0, o[0]);
    lemma_dec_octet_decimal(s, p1, o[1]);
    lemma_dec_octet_decimal(s, p2, o[2]);
    lemma_dec_octet_decimal(s, p3, o[3]);
    assert(ipv4_fields(s, e3, 4) == Some((Seq::<u8>::empty(), e3)));
    assert(ipv4_fields(s, e2, 3) == Some((seq![o[3]] + Seq::<u8>::empty(), e3)));
    assert(ipv4_fields(s, e1, 2) == Some((seq![o[2]] + (seq![o[3]] + Seq::<u8>::empty()), e3)));
    assert(ipv4_fields(s, e0, 1) == Some((seq![o[1]] + (seq![o[2]] + (seq![o[3]] + Seq::<u8>::empty())), e3)));
    assert(seq![o[0]] + (seq![o[1]] + (seq![o[2]] + (seq![o[3]] + Seq::<u8>::empty()))) =~= o);
}

/// The lower-case hexadecimal digit `d`.
pub open spec fn hex_char(d: nat) -> char {
    if d < 10 {
        digit_char(d)
    } else {
        ((d + 87) as u8) as char
    }
}

/// The lower-case hexadecimal notation of `n`, without leading zeros.
pub open spec fn hex_text(n: nat) -> Seq<char>
    decreases n,
{
    if n < 16 {
        seq![hex_char(n)]
    } else {
        hex_text(n / 16).push(hex_char(n % 16))
    }
}

/// IPv6 groups written in hexadecimal and separated by colons.
pub open spec fn groups_text(gs: Seq<u16>) -> Seq<char>
    decreases gs.len(),
{
    if gs.len() == 0 {
        Seq::empty()
    } else if gs.len() == 1 {
        hex_text(gs[0] as nat)
    } else {
        hex_text(gs[0] as nat) + seq![':'] + groups_text(gs.drop_first())
    }
}

/// The eight groups of sixteen octets.
pub open spec fn octet_groups(o: Seq<u8>) -> Seq<u16> {
    Seq::new(8, |i: int| ((o[2 * i] as int) * 256 + (o[2 * i + 1] as int)) as u16)
}

/// The full text of an IPv6 address with octets `o`: all eight groups, in
/// lower-case hexadecimal without leading zeros, separated by colons.
pub open spec fn ipv6_full_text(o: Seq<u8>) -> Seq<char> {
    groups_text(octet_groups(o))
}

/// A character that can follow an address text without joining it: neither a
/// hexadecimal digit nor a dot.
pub open spec fn ends_text(c: char) -> bool {
    digit_value(c, true) is None && c != '.'
}

proof fn lemma_hex_char(d: nat)
    requires
        d < 16,
    ensures
        digit_value(hex_char(d), true) == Some(d),
        hex_char(d) != ':' && hex_char(d) != '.' && hex_char(d) != ']',
{
    if d < 10 {
        lemma_digit_char(d);
    } else {
        assert(((d + 87) as u8) as int == d + 87);
    }
}

/// The hexadecimal text of `n`: hexadecimal digits only, at most four below 65536.
proof fn lemma_hex_shape(n: nat)
    ensures
        hex_text(n).len() >= 1,
        forall|k: int| 0 <= k < hex_text(n).len() ==> digit_value(#[trigger] hex_text(n)[k], true) is Some
            && hex_text(n)[k] != ':' && hex_text(n)[k] != '.' && hex_text(n)[k] != ']',
        n < 65536 ==> hex_text(n).len() <= 4,
        n < 4096 ==> hex_text(n).len() <= 3,
        n < 256 ==> hex_text(n).len() <= 2,
        n < 16 ==> hex_text(n).len() == 1,
    decreases n,
{
    if n < 16 {
        lemma_hex_char(n);
    } else {
        lemma_hex_shape(n / 16);
        lemma_hex_char(n % 16);
        let d = hex_text(n);
        let p = hex_text(n / 16);
        assert forall|k: int| 0 <= k < d.len() implies digit_value(#[trigger] d[k], true) is Some && d[k] != ':'
            && d[k] != '.' && d[k] != ']' by {
            if k < p.len() {
                assert(d[k] == p[k]);
            }
        }
    }
}

proof fn lemma_digits_value_hex(s: Seq<char>, pos: int, n: nat)
    requires
        0 <= pos,
        pos + hex_text(n).len() <= s.len(),
        s.subrange(pos, pos + hex_text(n).len()) == hex_text(n),
    ensures
        digits_value(s, pos, hex_text(n).len(), true) == n,
    decreases n,
{
    let d = hex_text(n);
    lemma_hex_shape(n);
    if n < 16 {
        assert(d[0] == hex_char(n));
        assert(s[pos] == d[0]) by {
            assert(s.subrange(pos, pos + d.len())[0] == d[0]);
        }
        lemma_hex_char(n);
        assert(digits_value(s, pos, 0, true) == 0);
        assert(digits_value(s, pos, 1, true) == digits_value(s, pos, 0, true) * 16 + digit_value(s[pos], true)->0);
    } else {
        let p = hex_text(n / 16);
        lemma_hex_shape(n / 16);
        assert(s.subrange(pos, pos + p.len()) =~= p) by {
            assert forall|k: int| 0 <= k < p.len() implies s.subrange(pos, pos + p.len())[k] == p[k] by {
                assert(s.subrange(pos, pos + d.len())[k] == d[k]);
            }
        }
        lemma_digits_value_hex(s, pos, n / 16);
        assert(s[pos + d.len() - 1] == d[d.len() - 1]) by {
            assert(s.subrange(pos, pos + d.len())[d.len() - 1] == d[d.len() - 1]);
        }
        lemma_hex_char(n % 16);
        assert(d.len() == p.len() + 1);
        assert(d[d.len() - 1] == hex_char(n % 16));
        assert(digits_value(s, pos, d.len(), true) == digits_value(s, pos, p.len(), true) * 16
            + digit_value(s[pos + d.len() - 1], true)->0);
    }
}

/// The hexadecimal text of a group at `pos`, followed by the end or a
/// character that is not a hexadecimal digit, reads as that group.
proof fn lemma_hex_group_text(s: Seq<char>, pos: int, g: u16)
    requires
        0 <= pos,
        pos + hex_text(g as nat).len() <= s.len(),
        s.subrange(pos, pos + hex_text(g as nat).len()) == hex_text(g as nat),
        pos + hex_text(g as nat).len() == s.len() || digit_value(s[pos + hex_text(g as nat).len()], true) is None,
    ensures
        hex_group(s, pos) == Some((g, pos + hex_text(g as nat).len())),
{
    let d = hex_text(g as nat);
    lemma_hex_shape(g as nat);
    assert forall|j: int| pos <= j < pos + d.len() implies digit_value(#[trigger] s[j], true) is Some by {
        assert(s.subrange(pos, pos + d.len())[j - pos] == d[j - pos]);
    }
    lemma_run_len_exact(s, pos, d.len(), true);
    lemma_digits_value_hex(s, pos, g as nat);
}

proof fn lemma_dec_is_hex(c: char)
    ensures
        digit_value(c, false) is Some ==> digit_value(c, true) is Some,
{
}

/// No IPv4 address starts at `p` when no dot follows before a character that
/// ends the text.
proof fn lemma_no_v4(s: Seq<char>, p: int, end: int)
    requires
        0 <= p <= end <= s.len(),
        forall|k: int| p <= k < end ==> #[trigger] s[k] != '.',
        end < s.len() ==> ends_text(s[end]),
    ensures
        ipv4_at(s, p) is None,
{
    lemma_run_digits(s, p, false);
    let n = run_len(s, p, false);
    if end < s.len() && p + n > end {
        assert(digit_value(s[end], false) is Some);
        lemma_dec_is_hex(s[end]);
    }
    if dec_octet(s, p) is Some {
        let q = p + n;
        assert(q <= end);
        assert(ipv4_fields(s, q, 1) is None);
    }
}

/// The octets of the groups of sixteen octets are those octets.
proof fn lemma_octet_groups(o: Seq<u8>)
    requires
        o.len() == 16,
    ensures
        group_octets(octet_groups(o)) == o,
{
    let g = group_octets(octet_groups(o));
    assert forall|k: int| 0 <= k < 16 implies g[k] == o[k] by {
        let i = k / 2;
        let v = (o[2 * i] as int) * 256 + (o[2 * i + 1] as int);
        assert(0 <= v < 65536);
        assert(octet_groups(o)[i] as int == v);
        if k % 2 == 0 {
            assert(k == 2 * i);
            assert(v / 256 == o[2 * i]);
        } else {
            assert(k == 2 * i + 1);
            assert(v % 256 == o[2 * i + 1]);
        }
    }
    assert(g =~= o);
}

/// The full text of an IPv6 address at the start of `s`, followed by the end
/// or a character that ends the text, reads as its eight groups, and the
/// whole of that text reads as its address.
pub proof fn lemma_ipv6_full_text(s: Seq<char>, o: Seq<u8>)
    requires
        o.len() == 16,
        ipv6_full_text(o).len() <= s.len(),
        s.subrange(0, ipv6_full_text(o).len() as int) == ipv6_full_text(o),
        ipv6_full_text(o).len() < s.len() ==> ends_text(s[ipv6_full_text(o).len() as int]),
    ensures
        read_groups(s, 0, 0, 8) == (octet_groups(o), ipv6_full_text(o).len() as int, false),
        ipv4_at(s, 0) is None,
        ipv6_full_text(o).len() == s.len() ==> ip_text(s) == Some(o),
{
    let t = ipv6_full_text(o);
    lemma_groups_text_chars(octet_groups(o));
    assert forall|k: int| 0 <= k < t.len() implies #[trigger] s[k] != '.' by {
        assert(s.subrange(0, t.len() as int)[k] == t[k]);
    }
    assert(s.subrange(0, t.len() as int) =~= Seq::<char>::empty() + t);
    lemma_read_groups_until(s, 0, 0, 8, octet_groups(o), t.len() as int);
    lemma_no_v4(s, 0, t.len() as int);
    lemma_octet_groups(o);
}

/// The text of groups holds no dot and no closing bracket.
pub proof fn lemma_groups_text_chars(gs: Seq<u16>)
    ensures
        forall|k: int| 0 <= k < groups_text(gs).len() ==> #[trigger] groups_text(gs)[k] != '.' && groups_text(gs)[k]
            != ']',
    decreases gs.len(),
{
    if gs.len() == 1 {
        lemma_hex_shape(gs[0] as nat);
    } else if gs.len() > 1 {
        lemma_hex_shape(gs[0] as nat);
        lemma_groups_text_chars(gs.drop_first());
        let h = hex_text(gs[0] as nat);
        let r = groups_text(gs.drop_first());
        let t = groups_text(gs);
        assert forall|k: int| 0 <= k < t.len() implies #[trigger] t[k] != '.' && t[k] != ']' by {
            if k < h.len() {
                assert(t[k] == h[k]);
            } else if k > h.len() {
                assert(t[k] == r[k - h.len() - 1]);
            }
        }
    }
}

/// The text of eight groups is not empty.
pub proof fn lemma_groups_text_nonempty(gs: Seq<u16>)
    requires
        gs.len() == 8,
    ensures
        groups_text(gs).len() > 0,
{
    lemma_hex_shape(gs[0] as nat);
}

/// A text that starts with `[` is no address by itself.
pub proof fn lemma_bracket_is_no_address(t: Seq<char>)
    requires
        t.len() > 0,
        t[0] == '[',
    ensures
        ip_text(t) is None,
{
    assert(run_len(t, 0, false) == 0);
    assert(run_len(t, 0, true) == 0);
    assert(ipv4_at(t, 0) is None);
    assert(embedded_v4(t, 0, 0, 8) is None);
    assert(hex_group(t, 0) is None);
    assert(read_groups(t, 0, 0, 8).0.len() == 0);
}

/// Groups `start..start + zeros` of the address with octets `o` are zero, and
/// at least one group is left out: a run that `::` may stand for.
pub open spec fn zero_run(o: Seq<u8>, start: int, zeros: int) -> bool {
    &&& 0 <= start
    &&& 1 <= zeros
    &&& start + zeros <= 8
    &&& forall|k: int| start <= k < start + zeros ==> #[trigger] octet_groups(o)[k] == 0
}

/// The text of an IPv6 address with octets `o` in which `::` stands for the
/// `zeros` zero groups from group `start`: the groups before the run and those
/// after it, in lower-case hexadecimal without leading zeros, separated by
/// colons.
pub open spec fn ipv6_compressed_text(o: Seq<u8>, start: int, zeros: int) -> Seq<char> {
    groups_text(octet_groups(o).take(start)) + seq![':', ':'] + groups_text(octet_groups(o).skip(start + zeros))
}

/// Reading groups `i..` from `pos` (limit `limit`) where the text of `gs`
/// stands (after a colon unless `i` is 0) gives `gs` back, when reading stops
/// right after them.
#[verifier::rlimit(60)]
proof fn lemma_read_groups_until(s: Seq<char>, pos: int, i: int, limit: int, gs: Seq<u16>, end: int)
    requires
        0 <= i,
        i + gs.len() <= limit <= 8,
        0 <= pos,
        end == pos + (if i > 0 && gs.len() > 0 { 1int } else { 0int }) + groups_text(gs).len(),
        end <= s.len(),
        s.subrange(pos, end) == (if i > 0 && gs.len() > 0 { seq![':'] } else { Seq::<char>::empty() }) + groups_text(gs),
        forall|k: int| pos <= k < end ==> #[trigger] s[k] != '.',
        end < s.len() ==> ends_text(s[end]),
        i + gs.len() < limit ==> read_groups(s, end, i + gs.len(), limit) == (Seq::<u16>::empty(), end, false),
    ensures
        read_groups(s, pos, i, limit) == (gs, end, false),
    decreases gs.len(),
{
    if gs.len() > 0 {
        let sep: int = if i > 0 { 1 } else { 0 };
        let p = pos + sep;
        let t = groups_text(gs);
        let h = hex_text(gs[0] as nat);
        lemma_hex_shape(gs[0] as nat);
        assert forall|k: int| 0 <= k < t.len() implies s[p + k] == #[trigger] t[k] by {
            assert(s.subrange(pos, end)[sep + k] == s[pos + sep + k]);
        }
        if i > 0 {
            assert(s[pos] == ':') by {
                assert(s.subrange(pos, end)[0] == s[pos]);
            }
        }
        assert(after_sep(s, pos, i, ':') == Some(p));
        if i < limit - 1 {
            lemma_no_v4(s, p, end);
        }
        assert(embedded_v4(s, pos, i, limit) is None);
        if gs.len() == 1 {
            assert(t == h);
        } else {
            assert(t == h + seq![':'] + groups_text(gs.drop_first()));
            assert(t[h.len() as int] == ':');
        }
        assert(s.subrange(p, p + h.len()) =~= h) by {
            assert forall|k: int| 0 <= k < h.len() implies s.subrange(p, p + h.len())[k] == h[k] by {
                assert(t[k] == h[k]);
            }
        }
        let e = p + h.len();
        if e < s.len() {
            if gs.len() == 1 {
                assert(e == end);
            } else {
                assert(s[e] == ':');
            }
        }
        lemma_hex_group_text(s, p, gs[0]);
        let rest = gs.drop_first();
        if gs.len() > 1 {
            let rt = groups_text(rest);
            assert(s.subrange(e, end) =~= seq![':'] + rt) by {
                assert forall|k: int| 0 <= k < end - e implies s.subrange(e, end)[k] == (seq![':'] + rt)[k] by {
                    assert(t[h.len() + k] == (seq![':'] + rt)[k]);
                }
            }
        } else {
            assert(e == end);
            assert(s.subrange(e, end) =~= Seq::<char>::empty() + groups_text(rest));
        }
        lemma_read_groups_until(s, e, i + 1, limit, rest, end);
        assert(seq![gs[0]] + rest =~= gs);
        assert(hex_group(s, p) == Some((gs[0], e)));
    }
}

/// Reading stops at a `::`.
proof fn lemma_stop_at_double_colon(s: Seq<char>, p: int, j: int, limit: int)
    requires
        0 <= p,
        p + 1 < s.len(),
        s[p] == ':',
        s[p + 1] == ':',
        0 <= j < limit,
    ensures
        read_groups(s, p, j, limit) == (Seq::<u16>::empty(), p, false),
{
    let q = if j == 0 { p } else { p + 1 };
    assert(after_sep(s, p, j, ':') == Some(q));
    assert(run_len(s, q, false) == 0);
    assert(run_len(s, q, true) == 0);
    assert(ipv4_at(s, q) is None);
    assert(hex_group(s, q) is None);
}

/// Reading stops at the end of the text.
proof fn lemma_stop_at_end(s: Seq<char>, j: int, limit: int)
    requires
        0 <= j < limit,
    ensures
        read_groups(s, s.len() as int, j, limit) == (Seq::<u16>::empty(), s.len() as int, false),
{
    let p = s.len() as int;
    assert(run_len(s, p, false) == 0);
    assert(run_len(s, p, true) == 0);
    assert(ipv4_at(s, p) is None);
    assert(hex_group(s, p) is None);
}

/// The text of an IPv6 address with a run of zero groups written as `::`
/// reads as that address, and holds no dot and no closing bracket.
pub proof fn lemma_ipv6_compressed_text(o: Seq<u8>, start: int, zeros: int)
    requires
        o.len() == 16,
        zero_run(o, start, zeros),
    ensures
        ip_text(ipv6_compressed_text(o, start, zeros)) == Some(o),
        ipv6_compressed_text(o, start, zeros).len() >= 2,
        forall|k: int|
            0 <= k < ipv6_compressed_text(o, start, zeros).len() ==> #[trigger] ipv6_compressed_text(
                o,
                start,
                zeros,
            )[k] != '.' && ipv6_compressed_text(o, start, zeros)[k] != ']',
{
    let g = octet_groups(o);
    let head = g.take(start);
    let tail = g.skip(start + zeros);
    let ht = groups_text(head);
    let tt = groups_text(tail);
    let s = ipv6_compressed_text(o, start, zeros);
    let m = ht.len() as int;
    let len = s.len() as int;
    assert(s == ht + seq![':', ':'] + tt);
    lemma_groups_text_chars(head);
    lemma_groups_text_chars(tail);
    assert forall|k: int| 0 <= k < s.len() implies #[trigger] s[k] != '.' && s[k] != ']' by {
        if k < m {
            assert(s[k] == ht[k]);
        } else if k >= m + 2 {
            assert(s[k] == tt[k - m - 2]);
        }
    }
    assert(s[m] == ':');
    assert(s[m + 1] == ':');
    // the groups before the run
    lemma_stop_at_double_colon(s, m, start, 8);
    assert(s.subrange(0, m) =~= Seq::<char>::empty() + ht);
    lemma_read_groups_until(s, 0, 0, 8, head, m);
    assert(ipv4_at(s, 0) is None) by {
        lemma_no_v4(s, 0, len);
    }
    // the groups after it
    let tl = tail.len() as int;
    if tl < 7 - start {
        lemma_stop_at_end(s, tl, 7 - start);
    }
    assert(s.subrange(m + 2, len) =~= Seq::<char>::empty() + tt);
    lemma_read_groups_until(s, m + 2, 0, 7 - start, tail, len);
    let zs = Seq::new((8 - start - tl) as nat, |k: int| 0u16);
    assert(head + zs + tail =~= g) by {
        assert forall|k: int| 0 <= k < 8 implies #[trigger] (head + zs + tail)[k] == g[k] by {
            if k < start {
            } else if k < start + zeros {
                assert(g[k] == 0);
            } else {
                assert(tail[k - start - zeros] == g[k]);
            }
        }
    }
    assert(ipv6_text(s) == Some(g));
    lemma_octet_groups(o);
}

/// The address with octets `o` is an IPv4 address mapped into IPv6: ten zero
/// octets, two of `0xff`, then the IPv4 octets.
pub open spec fn is_ipv4_mapped(o: Seq<u8>) -> bool {
    o.len() == 16 && (forall|k: int| 0 <= k < 10 ==> #[trigger] o[k] == 0) && o[10] == 0xff && o[11] == 0xff
}

/// The text in which IPv4-mapped addresses are printed: `::ffff:` and the
/// dotted-decimal text of the IPv4 octets.
pub open spec fn ipv6_mapped_text(o: Seq<u8>) -> Seq<char> {
    seq![':', ':', 'f', 'f', 'f', 'f', ':'] + ipv4_text(o.subrange(12, 16))
}

proof fn lemma_shift_run_len(s: Seq<char>, k: int, p: int, hex: bool)
    requires
        0 <= k <= s.len(),
        0 <= p,
    ensures
        run_len(s, k + p, hex) == run_len(s.skip(k), p, hex),
    decreases s.len() - (k + p),
{
    if k + p < s.len() {
        assert(s.skip(k)[p] == s[k + p]);
        lemma_shift_run_len(s, k, p + 1, hex);
    }
}

proof fn lemma_shift_digits(s: Seq<char>, k: int, p: int, n: nat, hex: bool)
    requires
        0 <= k,
        0 <= p,
        k + p + n <= s.len(),
    ensures
        digits_value(s, k + p, n, hex) == digits_value(s.skip(k), p, n, hex),
    decreases n,
{
    if n > 0 {
        assert(s.skip(k)[p + n - 1] == s[k + p + n - 1]);
        lemma_shift_digits(s, k, p, (n - 1) as nat, hex);
    }
}

proof fn lemma_shift_ipv4_fields(s: Seq<char>, k: int, p: int, i: int)
    requires
        0 <= k <= s.len(),
        0 <= p,
        0 <= i <= 4,
    ensures
        ipv4_fields(s, k + p, i) == match ipv4_fields(s.skip(k), p, i) {
            Some((v, e)) => Some((v, k + e)),
            None => None,
        },
    decreases 4 - i,
{
    let u = s.skip(k);
    if i < 4 {
        if i > 0 && 0 <= p < u.len() {
            assert(u[p] == s[k + p]);
        }
        match after_sep(u, p, i, '.') {
            None => {},
            Some(q) => {
                assert(after_sep(s, k + p, i, '.') == Some(k + q));
                lemma_shift_run_len(s, k, q, false);
                let n = run_len(u, q, false);
                lemma_run_digits(u, q, false);
                if n > 0 && q < u.len() {
                    assert(u[q] == s[k + q]);
                }
                if q + n <= u.len() {
                    lemma_shift_digits(s, k, q, n, false);
                }
                match dec_octet(u, q) {
                    None => {},
                    Some((v, e)) => {
                        assert(dec_octet(s, k + q) == Some((v, k + e)));
                        lemma_shift_ipv4_fields(s, k, e, i + 1);
                    },
                }
            },
        }
    }
}

/// The printed text of an IPv4-mapped address reads as that address, and
/// holds no closing bracket.
pub proof fn lemma_ipv6_mapped_text(o: Seq<u8>)
    requires
        is_ipv4_mapped(o),
    ensures
        ip_text(ipv6_mapped_text(o)) == Some(o),
        forall|k: int| 0 <= k < ipv6_mapped_text(o).len() ==> #[trigger] ipv6_mapped_text(o)[k] != ']',
{
    let o4 = o.subrange(12, 16);
    let v4 = ipv4_text(o4);
    let s = ipv6_mapped_text(o);
    let len = s.len() as int;
    let pre = seq![':', ':', 'f', 'f', 'f', 'f', ':'];
    assert(s == pre + v4);
    lemma_ipv4_text_chars(o4);
    assert forall|k: int| 0 <= k < s.len() implies #[trigger] s[k] != ']' by {
        if k >= 7 {
            assert(s[k] == v4[k - 7]);
        }
    }
    // no IPv4 address and no group before `::`
    assert(run_len(s, 0, false) == 0);
    assert(ipv4_at(s, 0) is None);
    lemma_stop_at_double_colon(s, 0, 0, 8);
    // the groups after `::`: `ffff`, then the IPv4 address
    assert(run_len(s, 2, false) == 0);
    assert(ipv4_at(s, 2) is None);
    assert(embedded_v4(s, 2, 0, 7) is None);
    let f = hex_text(65535);
    assert(f =~= seq!['f', 'f', 'f', 'f']) by {
        reveal_with_fuel(hex_text, 4);
        assert(hex_char(15) == 'f');
    }
    assert(s.subrange(2, 6) =~= f);
    lemma_hex_group_text(s, 2, 65535u16);
    assert(hex_group(s, 2) == Some((65535u16, 6int)));
    let u = s.skip(7);
    assert(u =~= v4);
    assert(u.subrange(0, v4.len() as int) =~= v4);
    lemma_ipv4_at_text(u, o4);
    lemma_shift_ipv4_fields(s, 7, 0, 0);
    assert(ipv4_at(s, 7) == Some((o4, len)));
    assert(embedded_v4(s, 6, 1, 7) == Some((o4, len)));
    let g6 = ((o4[0] as int) * 256 + (o4[1] as int)) as u16;
    let g7 = ((o4[2] as int) * 256 + (o4[3] as int)) as u16;
    assert(read_groups(s, 6, 1, 7) == (seq![g6, g7], len, true));
    assert(read_groups(s, 2, 0, 7) == (seq![65535u16] + seq![g6, g7], len, true));
    let g = octet_groups(o);
    let zs = Seq::new(5, |k: int| 0u16);
    let whole = Seq::<u16>::empty() + zs + (seq![65535u16] + seq![g6, g7]);
    assert(whole =~= g) by {
        assert forall|k: int| 0 <= k < 8 implies #[trigger] whole[k] == g[k] by {
            assert(o[2 * k] == o[2 * k]);
            if k < 5 {
                assert(o[2 * k] == 0 && o[2 * k + 1] == 0);
            }
        }
    }
    assert(ipv6_text(s) == Some(g));
    lemma_octet_groups(o);
}

/// The hexadecimal digit `d`, in upper case when `upper`.
pub open spec fn hex_char_case(d: nat, upper: bool) -> char {
    if upper && d >= 10 {
        ((d + 55) as u8) as char
    } else {
        hex_char(d)
    }
}

proof fn lemma_hex_char_case(d: nat, upper: bool)
    requires
        d < 16,
    ensures
        digit_value(hex_char_case(d, upper), true) == Some(d),
        hex_char_case(d, upper) != ':' && hex_char_case(d, upper) != '.' && hex_char_case(d, upper) != ']',
{
    lemma_hex_char(d);
    if upper && d >= 10 {
        assert(((d + 55) as u8) as int == d + 55);
    }
}

/// Group `g` written with four hexadecimal digits, leading zeros included,
/// in upper case when `upper`.
pub open spec fn hex4(g: u16, upper: bool) -> Seq<char> {
    seq![
        hex_char_case((g / 4096) as nat, upper),
        hex_char_case(((g / 256) % 16) as nat, upper),
        hex_char_case(((g / 16) % 16) as nat, upper),
        hex_char_case((g % 16) as nat, upper),
    ]
}

/// IPv6 groups each written with four hexadecimal digits and separated by colons.
pub open spec fn padded_groups_text(gs: Seq<u16>, upper: bool) -> Seq<char>
    decreases gs.len(),
{
    if gs.len() == 0 {
        Seq::empty()
    } else if gs.len() == 1 {
        hex4(gs[0], upper)
    } else {
        hex4(gs[0], upper) + seq![':'] + padded_groups_text(gs.drop_first(), upper)
    }
}

/// The text of an IPv6 address with octets `o` as eight groups of four
/// hexadecimal digits each (leading zeros kept), separated by colons, in
/// upper case when `upper`.
pub open spec fn ipv6_padded_text(o: Seq<u8>, upper: bool) -> Seq<char> {
    padded_groups_text(octet_groups(o), upper)
}

proof fn lemma_hex4_digits(g: u16, upper: bool)
    ensures
        forall|k: int| 0 <= k < 4 ==> digit_value(#[trigger] hex4(g, upper)[k], true) is Some && hex4(g, upper)[k] != ':'
            && hex4(g, upper)[k] != '.' && hex4(g, upper)[k] != ']',
{
    lemma_hex_char_case((g / 4096) as nat, upper);
    lemma_hex_char_case(((g / 256) % 16) as nat, upper);
    lemma_hex_char_case(((g / 16) % 16) as nat, upper);
    lemma_hex_char_case((g % 16) as nat, upper);
}

/// Four hexadecimal digits of a group at `pos`, followed by the end or a
/// character that is not a hexadecimal digit, read as that group.
proof fn lemma_hex4_group(s: Seq<char>, pos: int, g: u16, upper: bool)
    requires
        0 <= pos,
        pos + 4 <= s.len(),
        s.subrange(pos, pos + 4) == hex4(g, upper),
        pos + 4 == s.len() || digit_value(s[pos + 4], true) is None,
    ensures
        hex_group(s, pos) == Some((g, pos + 4)),
{
    let h = hex4(g, upper);
    lemma_hex4_digits(g, upper);
    assert forall|j: int| pos <= j < pos + 4 implies digit_value(#[trigger] s[j], true) is Some by {
        assert(s.subrange(pos, pos + 4)[j - pos] == h[j - pos]);
    }
    lemma_run_len_exact(s, pos, 4, true);
    let a = (g / 4096) as nat;
    let b = ((g / 256) % 16) as nat;
    let c = ((g / 16) % 16) as nat;
    let d = (g % 16) as nat;
    lemma_hex_char_case(a, upper);
    lemma_hex_char_case(b, upper);
    lemma_hex_char_case(c, upper);
    lemma_hex_char_case(d, upper);
    assert(s[pos] == h[0] && s[pos + 1] == h[1] && s[pos + 2] == h[2] && s[pos + 3] == h[3]) by {
        assert(s.subrange(pos, pos + 4)[0] == s[pos]);
        assert(s.subrange(pos, pos + 4)[1] == s[pos + 1]);
        assert(s.subrange(pos, pos + 4)[2] == s[pos + 2]);
        assert(s.subrange(pos, pos + 4)[3] == s[pos + 3]);
    }
    reveal_with_fuel(digits_value, 5);
    assert(digits_value(s, pos, 4, true) == ((a * 16 + b) * 16 + c) * 16 + d);
    assert((((g / 4096) * 16 + (g / 256) % 16) * 16 + (g / 16) % 16) * 16 + g % 16 == g) by (bit_vector);
}

proof fn lemma_padded_chars(gs: Seq<u16>, upper: bool)
    ensures
        forall|k: int| 0 <= k < padded_groups_text(gs, upper).len() ==> #[trigger] padded_groups_text(gs, upper)[k] != '.'
            && padded_groups_text(gs, upper)[k] != ']',
    decreases gs.len(),
{
    if gs.len() >= 1 {
        lemma_hex4_digits(gs[0], upper);
    }
    if gs.len() > 1 {
        lemma_padded_chars(gs.drop_first(), upper);
        let h = hex4(gs[0], upper);
        let r = padded_groups_text(gs.drop_first(), upper);
        let t = padded_groups_text(gs, upper);
        assert forall|k: int| 0 <= k < t.len() implies #[trigger] t[k] != '.' && t[k] != ']' by {
            if k < 4 {
                assert(t[k] == h[k]);
            } else if k > 4 {
                assert(t[k] == r[k - 5]);
            }
        }
    }
}

/// Reading groups `i..8` from `pos` where their four-digit text stands (after
/// a colon unless `i` is 0) gives them back, with the position after them.
#[verifier::rlimit(60)]
proof fn lemma_read_padded_groups(s: Seq<char>, pos: int, i: int, gs: Seq<u16>, end: int, upper: bool)
    requires
        0 <= i <= 8,
        gs.len() == 8 - i,
        0 <= pos,
        end == pos + (if i > 0 && gs.len() > 0 { 1int } else { 0int }) + padded_groups_text(gs, upper).len(),
        end <= s.len(),
        s.subrange(pos, end) == (if i > 0 && gs.len() > 0 { seq![':'] } else { Seq::<char>::empty() })
            + padded_groups_text(gs, upper),
        forall|k: int| pos <= k < end ==> #[trigger] s[k] != '.',
        end < s.len() ==> ends_text(s[end]),
    ensures
        read_groups(s, pos, i, 8) == (gs, end, false),
    decreases gs.len(),
{
    if gs.len() > 0 {
        let sep: int = if i > 0 { 1 } else { 0 };
        let p = pos + sep;
        let t = padded_groups_text(gs, upper);
        let h = hex4(gs[0], upper);
        lemma_hex4_digits(gs[0], upper);
        assert forall|k: int| 0 <= k < t.len() implies s[p + k] == #[trigger] t[k] by {
            assert(s.subrange(pos, end)[sep + k] == s[pos + sep + k]);
        }
        if i > 0 {
            assert(s[pos] == ':') by {
                assert(s.subrange(pos, end)[0] == s[pos]);
            }
        }
        assert(after_sep(s, pos, i, ':') == Some(p));
        if i < 7 {
            lemma_no_v4(s, p, end);
        }
        assert(embedded_v4(s, pos, i, 8) is None);
        if gs.len() == 1 {
            assert(t == h);
        } else {
            assert(t == h + seq![':'] + padded_groups_text(gs.drop_first(), upper));
            assert(t[4] == ':');
        }
        assert(s.subrange(p, p + 4) =~= h) by {
            assert forall|k: int| 0 <= k < 4 implies s.subrange(p, p + 4)[k] == h[k] by {
                assert(t[k] == h[k]);
            }
        }
        let e = p + 4;
        if e < s.len() {
            if gs.len() == 1 {
                assert(e == end);
            } else {
                assert(s[e] == ':');
            }
        }
        lemma_hex4_group(s, p, gs[0], upper);
        let rest = gs.drop_first();
        if gs.len() > 1 {
            let rt = padded_groups_text(rest, upper);
            assert(s.subrange(e, end) =~= seq![':'] + rt) by {
                assert forall|k: int| 0 <= k < end - e implies s.subrange(e, end)[k] == (seq![':'] + rt)[k] by {
                    assert(t[4 + k] == (seq![':'] + rt)[k]);
                }
            }
        } else {
            assert(e == end);
            assert(s.subrange(e, end) =~= Seq::<char>::empty() + padded_groups_text(rest, upper));
        }
        lemma_read_padded_groups(s, e, i + 1, rest, end, upper);
        assert(seq![gs[0]] + rest =~= gs);
    }
}

/// The four-digit text of an IPv6 address reads as that address, and holds
/// no closing bracket.
pub proof fn lemma_ipv6_padded_text(o: Seq<u8>, upper: bool)
    requires
        o.len() == 16,
    ensures
        ip_text(ipv6_padded_text(o, upper)) == Some(o),
        ipv6_padded_text(o, upper).len() > 0,
        forall|k: int| 0 <= k < ipv6_padded_text(o, upper).len() ==> #[trigger] ipv6_padded_text(o, upper)[k] != ']',
{
    let g = octet_groups(o);
    let s = ipv6_padded_text(o, upper);
    lemma_padded_chars(g, upper);
    assert(s == hex4(g[0], upper) + seq![':'] + padded_groups_text(g.drop_first(), upper));
    assert(s.subrange(0, s.len() as int) =~= Seq::<char>::empty() + s);
    lemma_read_padded_groups(s, 0, 0, g, s.len() as int, upper);
    lemma_no_v4(s, 0, s.len() as int);
    lemma_octet_groups(o);
}

} // verus!
