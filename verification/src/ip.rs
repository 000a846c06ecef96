//! IP addresses: reading them from client-supplied text, choosing the client
//! address of a request, and the numeric value of an address.
use vstd::prelude::*;

use crate::ip_text::{
    ip_text, ipv4_text, ipv6_compressed_text, ipv6_full_text, ipv6_mapped_text, is_ipv4_mapped,
    lemma_ipv6_compressed_text, lemma_ipv6_mapped_text, zero_run, ipv6_padded_text, lemma_ipv6_padded_text, lemma_groups_text_chars, lemma_ipv4_at_text, lemma_ipv4_text_chars,
    lemma_ipv6_full_text, octet_groups, parse_ip_text,
};
use crate::headers::{header_value, str_eq_ignore_ascii_case, Headers};
use crate::text::{
    chars_of, count, count_char, eq_ignore_ascii_case, find_pair, first_index, has_char,
    split_once, split_once_pair, split_once_str, trim, trim_str, view_pair,
};

verus! {

/// An IPv4 or IPv6 address, held as its octets in network order.
#[derive(Clone, Copy, Debug, PartialEq, Eq, Hash)]
pub enum IpAddress {
    V4([u8; 4]),
    V6([u8; 16]),
}

/// The octets of an address, most significant first.
pub open spec fn octets(ip: IpAddress) -> Seq<u8> {
    match ip {
        IpAddress::V4(a) => a@,
        IpAddress::V6(a) => a@,
    }
}

/// The unsigned number whose big-endian base-256 digits are `bytes`.
pub open spec fn be_value(bytes: Seq<u8>) -> nat
    decreases bytes.len(),
{
    if bytes.len() == 0 {
        0
    } else {
        be_value(bytes.drop_last()) * 256 + bytes.last() as nat
    }
}

/// 256 to the power `n`.
pub open spec fn pow256(n: nat) -> nat
    decreases n,
{
    if n == 0 {
        1
    } else {
        256 * pow256((n - 1) as nat)
    }
}

proof fn lemma_pow256_mono(a: nat, b: nat)
    requires
        a <= b,
    ensures
        pow256(a) <= pow256(b),
    decreases b,
{
    if a < b {
        lemma_pow256_mono(a, (b - 1) as nat);
    }
}

impl IpAddress {
    /// The address as a cache key: its family and its numeric value.
    pub fn key(&self) -> (r: (u8, u128))
        ensures
            r == ip_key(*self),
    {
        match self {
            IpAddress::V4(_) => (4, to_decimal(*self)),
            IpAddress::V6(_) => (6, to_decimal(*self)),
        }
    }
}

/// The family tag and numeric value that identify an address.
pub open spec fn ip_key(ip: IpAddress) -> (u8, u128) {
    octets_key(octets(ip))
}

/// The cache key of the address with octets `o`: its family (four octets for
/// IPv4, else IPv6) and its numeric value.
pub open spec fn octets_key(o: Seq<u8>) -> (u8, u128) {
    if o.len() == 4 {
        (4u8, be_value(o) as u128)
    } else {
        (6u8, be_value(o) as u128)
    }
}

pub(crate) fn be_value_of(bytes: &[u8]) -> (r: u128)
    requires
        bytes@.len() <= 16,
    ensures
        r == be_value(bytes@),
{
    let mut acc: u128 = 0;
    let mut i: usize = 0;
    while i < bytes.len()
        invariant
            i <= bytes@.len() <= 16,
            acc == be_value(bytes@.take(i as int)),
            acc < pow256(i as nat),
        decreases bytes@.len() - i,
    {
        let b = bytes[i];
        proof {
            let p = pow256(i as nat);
            assert(bytes@.take(i + 1).drop_last() =~= bytes@.take(i as int));
            assert((acc as int) * 256 + (b as int) < p * 256) by (nonlinear_arith)
                requires
                    (acc as int) < p,
                    (b as int) < 256,
            ;
            lemma_pow256_mono((i + 1) as nat, 16);
            reveal_with_fuel(pow256, 17);
            assert(pow256(16) == 0x1_0000_0000_0000_0000_0000_0000_0000_0000);
        }
        acc = acc * 256 + b as u128;
        i = i + 1;
    }
    assert(bytes@.take(i as int) =~= bytes@);
    acc
}

/// The address as an unsigned number: its octets read in big-endian order.
pub fn to_decimal(ip: IpAddress) -> (r: u128)
    ensures
        r == be_value(octets(ip)),
{
    match ip {
        IpAddress::V4(a) => be_value_of(a.as_slice()),
        IpAddress::V6(a) => be_value_of(a.as_slice()),
    }
}

/// The result of a parse: the octets of the address, or the error message.
pub open spec fn result_view(r: Result<IpAddress, String>) -> Result<Seq<u8>, Seq<char>> {
    match r {
        Ok(ip) => Ok(octets(ip)),
        Err(e) => Err(e@),
    }
}

/// The text of an `X-Forwarded-For` value up to its first comma: the first
/// address of the proxy chain, that of the client itself.
pub open spec fn forwarded_first(value: Seq<char>) -> Seq<char> {
    match split_once(value, ',') {
        Some((first, _)) => first,
        None => value,
    }
}

/// `[addr]:port`: the address inside the brackets, when it parses.
pub open spec fn bracket_form(t: Seq<char>) -> Option<Seq<u8>> {
    if t.len() > 0 && t[0] == '[' {
        match split_once_pair(t.skip(1), ']', ':') {
            Some((addr, _)) => ip_text(addr),
            None => None,
        }
    } else {
        None
    }
}

/// `addr:port` with a single colon: the address before it, when it parses.
pub open spec fn host_port_form(t: Seq<char>) -> Option<Seq<u8>> {
    if count(t, ':') == 1 {
        match split_once(t, ':') {
            Some((host, _)) => ip_text(host),
            None => None,
        }
    } else {
        None
    }
}

#[verifier::opaque]
/// What the parse of a client-supplied address gives: surrounding white space
/// is ignored; a bare address, `[addr]:port` and `addr:port` are accepted.
pub open spec fn parse_ip_spec(s: Seq<char>) -> Result<Seq<u8>, Seq<char>> {
    let t = trim(s);
    if t.len() == 0 {
        Err("empty IP string"@)
    } else if ip_text(t) is Some {
        Ok(ip_text(t)->0)
    } else if bracket_form(t) is Some {
        Ok(bracket_form(t)->0)
    } else if host_port_form(t) is Some {
        Ok(host_port_form(t)->0)
    } else {
        Err("could not parse IP: "@ + t)
    }
}

/// The client address named by an `X-Forwarded-For` value: the text before
/// the first comma, or the whole value.
pub fn ip_from_forwarded_for(value: &str) -> (r: &str)
    ensures
        r@ == forwarded_first(value@),
{
    match split_once_str(value, ',') {
        Some((first, _)) => first,
        None => value,
    }
}

/// Reads an IP address from client-supplied text. Surrounding white space is
/// ignored, and a port in `[addr]:port` or `addr:port` form is dropped.
pub fn parse_ip(s: &str) -> (r: Result<IpAddress, String>)
    ensures
        result_view(r) == parse_ip_spec(s@),
{
    proof {
        reveal(parse_ip_spec);
        reveal_strlit("empty IP string");
        reveal_strlit("could not parse IP: ");
    }
    let t = trim_str(s);
    if t.is_empty() {
        return Err("empty IP string".to_string());
    }
    if let Some(ip) = parse_ip_text(t) {
        return Ok(ip);
    }
    let cs = chars_of(t);
    let n = cs.len();
    if cs[0] == '[' {
        let rest = t.substring_char(1, n);
        let rs = chars_of(rest);
        assert(rest@ =~= t@.skip(1));
        match find_pair(&rs, ']', ':') {
            Some(i) => {
                let addr = rest.substring_char(0, i);
                assert(addr@ =~= rest@.take(i as int));
                assert(rest@.skip(i + 2) =~= rest@.skip(i + 2));
                if let Some(ip) = parse_ip_text(addr) {
                    return Ok(ip);
                }
            },
            None => {},
        }
    }
    if count_char(&cs, ':') == 1 {
        match split_once_str(t, ':') {
            Some((host, _)) => {
                if let Some(ip) = parse_ip_text(host) {
                    return Ok(ip);
                }
            },
            None => {},
        }
    }
    let mut msg = "could not parse IP: ".to_string();
    msg.append(t);
    Err(msg)
}

/// The address a request is answered for: a non-empty `ip` query parameter
/// first; then the first trusted header that the request carries with a
/// non-empty value (for `X-Forwarded-For`, its first entry); then the address
/// of the peer.
pub open spec fn extract_ip_spec(
    trusted: Seq<Seq<char>>,
    headers: Seq<(Seq<char>, Seq<char>)>,
    query_ip: Option<Seq<char>>,
    remote: Option<IpAddress>,
) -> Result<Seq<u8>, Seq<char>> {
    if query_ip is Some && query_ip->0.len() > 0 {
        parse_ip_spec(query_ip->0)
    } else {
        ip_from_trusted(trusted, headers, remote)
    }
}

/// The trusted-header and peer-address part of `extract_ip_spec`.
pub open spec fn ip_from_trusted(
    trusted: Seq<Seq<char>>,
    headers: Seq<(Seq<char>, Seq<char>)>,
    remote: Option<IpAddress>,
) -> Result<Seq<u8>, Seq<char>>
    decreases trusted.len(),
{
    if trusted.len() == 0 {
        match remote {
            Some(ip) => Ok(octets(ip)),
            None => Err("no IP address found"@),
        }
    } else {
        let name = trusted[0];
        match header_value(headers, name) {
            Some(v) => if v.len() > 0 {
                header_ip_spec(name, v)
            } else {
                ip_from_trusted(trusted.drop_first(), headers, remote)
            },
            None => ip_from_trusted(trusted.drop_first(), headers, remote),
        }
    }
}

/// The views of a list of names.
pub open spec fn names_view(names: Seq<String>) -> Seq<Seq<char>> {
    names.map_values(|n: String| n@)
}

/// The view of an optional text.
pub open spec fn opt_view(s: Option<&str>) -> Option<Seq<char>> {
    match s {
        Some(t) => Some(t@),
        None => None,
    }
}

/// The address carried by the value of a trusted header.
pub open spec fn header_ip_spec(name: Seq<char>, value: Seq<char>) -> Result<Seq<u8>, Seq<char>> {
    if eq_ignore_ascii_case(name, "x-forwarded-for"@) {
        parse_ip_spec(forwarded_first(value))
    } else {
        parse_ip_spec(value)
    }
}

fn ip_from_header(name: &str, value: &str) -> (r: Result<IpAddress, String>)
    ensures
        result_view(r) == header_ip_spec(name@, value@),
{
    let ip_str = if str_eq_ignore_ascii_case(name, "x-forwarded-for") {
        ip_from_forwarded_for(value)
    } else {
        value
    };
    parse_ip(ip_str)
}

proof fn lemma_trusted_step(
    names: Seq<Seq<char>>,
    headers: Seq<(Seq<char>, Seq<char>)>,
    remote: Option<IpAddress>,
    i: int,
)
    requires
        0 <= i < names.len(),
    ensures
        ip_from_trusted(names.skip(i), headers, remote) == (match header_value(headers, names[i]) {
            Some(v) => if v.len() > 0 {
                header_ip_spec(names[i], v)
            } else {
                ip_from_trusted(names.skip(i + 1), headers, remote)
            },
            None => ip_from_trusted(names.skip(i + 1), headers, remote),
        }),
{
    assert(names.skip(i)[0] == names[i]);
    assert(names.skip(i).drop_first() =~= names.skip(i + 1));
}

/// Chooses the address a request is answered for; see `extract_ip_spec`.
pub fn extract_ip(
    trusted: &Vec<String>,
    headers: &Headers,
    query_ip: Option<&str>,
    remote_addr: Option<IpAddress>,
) -> (r: Result<IpAddress, String>)
    ensures
        result_view(r) == extract_ip_spec(names_view(trusted@), headers@, opt_view(query_ip), remote_addr),
{
    if let Some(ip_str) = query_ip {
        if !ip_str.is_empty() {
            return parse_ip(ip_str);
        }
    }
    let ghost names = names_view(trusted@);
    let mut i: usize = 0;
    assert(names.skip(0) =~= names);
    while i < trusted.len()
        invariant
            names == names_view(trusted@),
            i <= trusted.len(),
            extract_ip_spec(names, headers@, opt_view(query_ip), remote_addr) == ip_from_trusted(
                names,
                headers@,
                remote_addr,
            ),
            ip_from_trusted(names, headers@, remote_addr) == ip_from_trusted(
                names.skip(i as int),
                headers@,
                remote_addr,
            ),
        decreases trusted.len() - i,
    {
        let header = trusted[i].as_str();
        assert(names[i as int] == header@);
        proof {
            lemma_trusted_step(names, headers@, remote_addr, i as int);
        }
        if let Some(value) = headers.get(header) {
            if !value.is_empty() {
                return ip_from_header(header, value);
            }
        }
        i = i + 1;
    }
    assert(names.skip(i as int).len() == 0);
    proof {
        reveal_strlit("no IP address found");
    }
    match remote_addr {
        Some(ip) => Ok(ip),
        None => Err("no IP address found".to_string()),
    }
}

/// A host name from a reverse lookup, without trailing dots; `None` when
/// nothing is left.
pub open spec fn hostname_spec(name: Seq<char>) -> Option<Seq<char>> {
    let t = crate::text::trim_end_char(name, '.');
    if t.len() == 0 { None } else { Some(t) }
}

/// Cleans the answer of a reverse DNS lookup: trailing dots are dropped, and
/// an answer with nothing else is no host name.
pub fn normalize_hostname(name: &str) -> (r: Option<String>)
    ensures
        match r {
            Some(h) => hostname_spec(name@) == Some(h@),
            None => hostname_spec(name@) is None,
        },
{
    let cs = chars_of(name);
    let mut end: usize = cs.len();
    assert(cs@.take(end as int) =~= cs@);
    while end > 0 && cs[end - 1] == '.'
        invariant
            end <= cs.len(),
            cs@ == name@,
            crate::text::trim_end_char(cs@, '.') == crate::text::trim_end_char(
                cs@.take(end as int),
                '.',
            ),
        decreases end,
    {
        assert(cs@.take(end as int).drop_last() =~= cs@.take(end - 1));
        end = end - 1;
    }
    if end == 0 {
        None
    } else {
        let t = name.substring_char(0, end);
        assert(t@ =~= cs@.take(end as int));
        Some(t.to_string())
    }
}

/// Surrounding white space never changes how an address is read.
pub proof fn law_parse_ignores_surrounding_whitespace(s: Seq<char>)
    ensures
        parse_ip_spec(s) == parse_ip_spec(trim(s)),
{
    reveal(parse_ip_spec);
    crate::text::law_trim_idempotent(s);
}

/// A non-empty `ip` query parameter decides the address of a request,
/// whatever its headers and peer.
pub proof fn law_query_parameter_first(
    trusted: Seq<Seq<char>>,
    headers: Seq<(Seq<char>, Seq<char>)>,
    query_ip: Seq<char>,
    remote: Option<IpAddress>,
)
    requires
        query_ip.len() > 0,
    ensures
        extract_ip_spec(trusted, headers, Some(query_ip), remote) == parse_ip_spec(query_ip),
{
}

/// Without a query parameter or trusted header, a request is answered for
/// its peer; without a peer either, it is refused.
pub proof fn law_peer_address_last(headers: Seq<(Seq<char>, Seq<char>)>, remote: Option<IpAddress>)
    ensures
        extract_ip_spec(Seq::empty(), headers, None, remote) == match remote {
            Some(ip) => Ok::<Seq<u8>, Seq<char>>(octets(ip)),
            None => Err::<Seq<u8>, Seq<char>>("no IP address found"@),
        },
{
}

/// The client named by `X-Forwarded-For` is a comma-free prefix of the value.
pub proof fn law_forwarded_first_is_comma_free_prefix(value: Seq<char>)
    ensures
        crate::text::lacks(forwarded_first(value), ','),
        forwarded_first(value).is_prefix_of(value),
{
    if crate::text::has_char(value, ',') {
        let i = crate::text::first_index(value, ',');
        crate::text::lemma_first_index(value, ',');
        assert(value.take(i).is_prefix_of(value));
    } else {
        assert forall|i: int| 0 <= i < value.len() implies value[i] != ',' by {
            if value[i] == ',' {
                assert(crate::text::has_char(value, ','));
            }
        }
    }
}

/// The decimal value of an IPv4 address is below 2^32.
pub proof fn law_ipv4_decimal_fits_32_bits(a: [u8; 4])
    ensures
        be_value(octets(IpAddress::V4(a))) < 0x1_0000_0000,
{
    let o = octets(IpAddress::V4(a));
    reveal_with_fuel(be_value, 5);
    assert(o.len() == 4);
    assert(o.drop_last().drop_last().drop_last().drop_last().len() == 0);
    assert(be_value(o.take(0)) == 0);
    assert(o[0] < 256 && o[1] < 256 && o[2] < 256 && o[3] < 256);
    assert(o.drop_last().drop_last().drop_last() =~= seq![o[0]]);
    assert(o.drop_last().drop_last() =~= seq![o[0], o[1]]);
    assert(o.drop_last() =~= seq![o[0], o[1], o[2]]);
    assert(seq![o[0]].drop_last() =~= Seq::<u8>::empty());
}

proof fn lemma_count_concat(x: Seq<char>, y: Seq<char>, c: char)
    ensures
        count(x + y, c) == count(x, c) + count(y, c),
    decreases y.len(),
{
    if y.len() > 0 {
        lemma_count_concat(x, y.drop_last(), c);
        assert((x + y).drop_last() =~= x + y.drop_last());
    } else {
        assert(x + y =~= x);
    }
}

proof fn lemma_count_lacks(x: Seq<char>, c: char)
    requires
        crate::text::lacks(x, c),
    ensures
        count(x, c) == 0,
    decreases x.len(),
{
    if x.len() > 0 {
        lemma_count_lacks(x.drop_last(), c);
    }
}

/// Reading the dotted-decimal text of an IPv4 address gives the address
/// back: alone, with white space around it, or followed by `:` and a port
/// (any text without a colon).
pub proof fn law_ipv4_text_round_trip(a: [u8; 4], s: Seq<char>, port: Seq<char>)
    requires
        crate::text::lacks(port, ':'),
    ensures
        ip_text(ipv4_text(a@)) == Some(a@),
        trim(s) == ipv4_text(a@) ==> parse_ip_spec(s) == Ok::<Seq<u8>, Seq<char>>(a@),
        trim(s) == ipv4_text(a@) + seq![':'] + port ==> parse_ip_spec(s) == Ok::<Seq<u8>, Seq<char>>(a@),
{
    reveal(parse_ip_spec);
    let text = ipv4_text(a@);
    let n = text.len() as int;
    lemma_ipv4_text_chars(a@);
    crate::ip_text::lemma_decimal_shape(a@[0] as nat);
    assert(text.subrange(0, n) =~= text);
    lemma_ipv4_at_text(text, a@);
    assert(n > 0);
    let t = text + seq![':'] + port;
    assert(t.subrange(0, n) =~= text);
    assert(t[n] == ':');
    assert(crate::ip_text::digit_value(':', false) is None);
    lemma_ipv4_at_text(t, a@);
    assert(ip_text(t) is None);
    assert(t[0] == text[0]);
    assert(bracket_form(t) is None);
    assert(crate::text::lacks(text, ':')) by {
        assert forall|k: int| 0 <= k < text.len() implies text[k] != ':' by {
            assert(crate::ip_text::digit_value(text[k], false) is Some || text[k] == '.');
        }
    }
    lemma_count_lacks(text, ':');
    lemma_count_lacks(port, ':');
    lemma_count_concat(text, seq![':'], ':');
    lemma_count_concat(text + seq![':'], port, ':');
    assert(count(seq![':'], ':') == 1) by {
        let one = seq![':'];
        assert(one.drop_last() =~= Seq::<char>::empty());
        assert(one.last() == ':');
        assert(count(Seq::<char>::empty(), ':') == 0);
        assert(count(one, ':') == count(one.drop_last(), ':') + 1);
    }
    assert(count(t, ':') == 1);
    assert(t.take(n) =~= text);
    assert(crate::text::is_first_index(t, ':', n));
    assert(has_char(t, ':'));
    crate::text::lemma_first_index(t, ':');
    let f = first_index(t, ':');
    assert(f == n) by {
        if f < n {
            assert(t[f] == text[f]);
        } else if f > n {
            assert(t.take(f)[n] == ':');
        }
    }
    assert(t.skip(n + 1) =~= port);
    assert(split_once(t, ':') == Some((text, port)));
    assert(host_port_form(t) == Some(a@));
}

proof fn lemma_v6_bracketed(a: [u8; 16], port: Seq<char>)
    ensures
        ({
            let t = seq!['['] + ipv6_full_text(a@) + seq![']', ':'] + port;
            t.len() > 0 && ip_text(t) is None && bracket_form(t) == Some(a@)
        }),
{
    let text = ipv6_full_text(a@);
    lemma_groups_text_chars(octet_groups(a@));
    assert(text.subrange(0, text.len() as int) =~= text);
    lemma_ipv6_full_text(text, a@);
    lemma_bracketed_text(text, a@, port);
}

/// Reading the full text of an IPv6 address (eight groups in lower-case
/// hexadecimal) gives the address back: alone, with white space around it, or
/// in brackets followed by `:` and a port.
#[verifier::rlimit(50)]
pub proof fn law_ipv6_text_round_trip(a: [u8; 16], s: Seq<char>, port: Seq<char>)
    ensures
        ip_text(ipv6_full_text(a@)) == Some(a@),
        trim(s) == ipv6_full_text(a@) ==> parse_ip_spec(s) == Ok::<Seq<u8>, Seq<char>>(a@),
        trim(s) == seq!['['] + ipv6_full_text(a@) + seq![']', ':'] + port ==> parse_ip_spec(s) == Ok::<
            Seq<u8>,
            Seq<char>,
        >(a@),
{
    let text = ipv6_full_text(a@);
    assert(text.subrange(0, text.len() as int) =~= text);
    lemma_ipv6_full_text(text, a@);
    crate::ip_text::lemma_groups_text_nonempty(octet_groups(a@));
    lemma_v6_bracketed(a, port);
    reveal(parse_ip_spec);
}

/// `[text]:port` reads as the address that `text` denotes, when `text`
/// denotes one and holds no closing bracket.
proof fn lemma_bracketed_text(text: Seq<char>, o: Seq<u8>, port: Seq<char>)
    requires
        ip_text(text) == Some(o),
        forall|k: int| 0 <= k < text.len() ==> #[trigger] text[k] != ']',
    ensures
        ({
            let t = seq!['['] + text + seq![']', ':'] + port;
            t.len() > 0 && ip_text(t) is None && bracket_form(t) == Some(o)
        }),
{
    let n = text.len() as int;
    let t = seq!['['] + text + seq![']', ':'] + port;
    assert(t[0] == '[');
    crate::ip_text::lemma_bracket_is_no_address(t);
    let u = t.skip(1);
    assert(u =~= text + seq![']', ':'] + port);
    assert(crate::text::pair_at(u, n, ']', ':'));
    let i = choose|i: int|
        crate::text::pair_at(u, i, ']', ':') && (forall|j: int| 0 <= j < i ==> !crate::text::pair_at(u, j, ']', ':'));
    assert(i == n) by {
        if i < n {
            assert(u[i] == text[i]);
        }
    }
    assert(u.take(n) =~= text);
}

/// Reading the text of an IPv6 address in which `::` stands for a run of zero
/// groups (the form in which addresses with such a run are printed) gives
/// the address back: alone, with white space around it, or in brackets
/// followed by `:` and a port.
#[verifier::rlimit(50)]
pub proof fn law_ipv6_compressed_round_trip(
    a: [u8; 16],
    start: int,
    zeros: int,
    s: Seq<char>,
    port: Seq<char>,
)
    requires
        zero_run(a@, start, zeros),
    ensures
        ip_text(ipv6_compressed_text(a@, start, zeros)) == Some(a@),
        trim(s) == ipv6_compressed_text(a@, start, zeros) ==> parse_ip_spec(s) == Ok::<Seq<u8>, Seq<char>>(a@),
        trim(s) == seq!['['] + ipv6_compressed_text(a@, start, zeros) + seq![']', ':'] + port ==> parse_ip_spec(s)
            == Ok::<Seq<u8>, Seq<char>>(a@),
{
    lemma_ipv6_compressed_text(a@, start, zeros);
    let text = ipv6_compressed_text(a@, start, zeros);
    assert forall|k: int| 0 <= k < text.len() implies #[trigger] text[k] != ']' by {
        assert(text[k] != '.' && text[k] != ']');
    }
    lemma_bracketed_text(text, a@, port);
    reveal(parse_ip_spec);
}

/// Reading the printed text of an IPv4-mapped IPv6 address (`::ffff:` and
/// the dotted-decimal IPv4 address) gives the address back: alone, with
/// white space around it, or in brackets followed by `:` and a port.
#[verifier::rlimit(50)]
pub proof fn law_ipv6_mapped_round_trip(a: [u8; 16], s: Seq<char>, port: Seq<char>)
    requires
        is_ipv4_mapped(a@),
    ensures
        ip_text(ipv6_mapped_text(a@)) == Some(a@),
        trim(s) == ipv6_mapped_text(a@) ==> parse_ip_spec(s) == Ok::<Seq<u8>, Seq<char>>(a@),
        trim(s) == seq!['['] + ipv6_mapped_text(a@) + seq![']', ':'] + port ==> parse_ip_spec(s) == Ok::<
            Seq<u8>,
            Seq<char>,
        >(a@),
{
    lemma_ipv6_mapped_text(a@);
    let text = ipv6_mapped_text(a@);
    assert(text.len() > 0);
    lemma_bracketed_text(text, a@, port);
    reveal(parse_ip_spec);
}

/// Every IPv6 group may be written with leading zeros, in lower or upper
/// case: the text of an address as eight groups of four hexadecimal digits
/// each (zero-padded) gives the address back, alone, with white space around it, or in brackets
/// followed by `:` and a port.
#[verifier::rlimit(50)]
pub proof fn law_ipv6_padded_round_trip(a: [u8; 16], upper: bool, s: Seq<char>, port: Seq<char>)
    ensures
        ip_text(ipv6_padded_text(a@, upper)) == Some(a@),
        trim(s) == ipv6_padded_text(a@, upper) ==> parse_ip_spec(s) == Ok::<Seq<u8>, Seq<char>>(a@),
        trim(s) == seq!['['] + ipv6_padded_text(a@, upper) + seq![']', ':'] + port ==> parse_ip_spec(s) == Ok::<
            Seq<u8>,
            Seq<char>,
        >(a@),
{
    lemma_ipv6_padded_text(a@, upper);
    lemma_bracketed_text(ipv6_padded_text(a@, upper), a@, port);
    reveal(parse_ip_spec);
}

} // verus!
