//! The decisions of the HTTP front end: which handler answers the root
//! path, which routes exist, how path and body parameters are read, and how
//! a lookup is answered from the cache or the geo provider.
use vstd::prelude::*;

use crate::cache::{has_key, lookup, push_entry, touch, Cache};
use crate::config::Config;
use crate::error::{json_error, plain_error, AppError};
use crate::geo::GeoProvider;
use crate::headers::{header_value, Headers};
use crate::ip::{extract_ip, extract_ip_spec, ip_key, names_view, octets, octets_key, opt_view, IpAddress};
use crate::response::{
    assemble_response, attach_user_agent, decimal, decimal_string, reported_user_agent, response_spec,
    with_user_agent_spec, Response, ResponseView,
};
use crate::text::{contains_text, parse_unsigned, parse_unsigned_text, str_contains, trim, trim_str};
use crate::user_agent::{is_cli, is_cli_product, ua_fields};

verus! {

/// The handler that answers a request for the root path.
#[derive(Debug, Clone, Copy, PartialEq, Eq)]
pub enum RootHandler {
    /// The JSON document.
    Json,
    /// The address as a line of text.
    Ip,
    /// The HTML page.
    Html,
}

/// Content negotiation for the root path: JSON when the client accepts
/// `application/json`; the bare address for command-line clients and clients
/// that accept `text/plain`; the HTML page when templates are loaded; the bare
/// address otherwise.
pub open spec fn root_handler_spec(accept: Seq<char>, user_agent: Seq<char>, has_template: bool) -> RootHandler {
    if contains_text(accept, "application/json"@) {
        RootHandler::Json
    } else if (user_agent.len() > 0 && is_cli_product(ua_fields(user_agent).0)) || contains_text(
        accept,
        "text/plain"@,
    ) {
        RootHandler::Ip
    } else if has_template {
        RootHandler::Html
    } else {
        RootHandler::Ip
    }
}

/// The root path answers JSON exactly when the `Accept` value contains the
/// text `application/json`; a request whose `Accept` value holds neither that
/// nor `text/plain`, from a client that is not a command-line one, gets the
/// HTML page when templates are loaded and the bare address otherwise; a
/// command-line client, or an `Accept` value with `text/plain` (and without
/// `application/json`), gets the bare address.
pub proof fn law_root_negotiation(accept: Seq<char>, user_agent: Seq<char>, has_template: bool)
    ensures
        (root_handler_spec(accept, user_agent, has_template) == RootHandler::Json) == (exists|i: int|
            0 <= i && i + 16 <= accept.len() && #[trigger] accept.subrange(i, i + 16) == "application/json"@),
        !contains_text(accept, "application/json"@) && !contains_text(accept, "text/plain"@) && !(
        user_agent.len() > 0 && is_cli_product(ua_fields(user_agent).0)) ==> root_handler_spec(
            accept,
            user_agent,
            has_template,
        ) == (if has_template {
            RootHandler::Html
        } else {
            RootHandler::Ip
        }),
        !contains_text(accept, "application/json"@) && (contains_text(accept, "text/plain"@) || (
        user_agent.len() > 0 && is_cli_product(ua_fields(user_agent).0))) ==> root_handler_spec(
            accept,
            user_agent,
            has_template,
        ) == RootHandler::Ip,
{
    reveal_strlit("application/json");
    assert("application/json"@.len() == 16);
}

/// Chooses the handler for the root path; see `root_handler_spec`.
pub fn negotiate(accept: &str, user_agent: &str, has_template: bool) -> (r: RootHandler)
    ensures
        r == root_handler_spec(accept@, user_agent@, has_template),
{
    if str_contains(accept, "application/json") {
        RootHandler::Json
    } else if is_cli(user_agent) || str_contains(accept, "text/plain") {
        RootHandler::Ip
    } else if has_template {
        RootHandler::Html
    } else {
        RootHandler::Ip
    }
}

/// The optional groups of routes that the server registers.
#[derive(Debug, Clone, Copy, PartialEq, Eq)]
pub struct Routes {
    /// `/country`, `/country-iso`, `/city`, `/coordinates`, `/asn`, `/asn-org`.
    pub geo: bool,
    /// `/port/{port}`.
    pub port: bool,
    /// `/debug/cache/` and `/debug/cache/resize`.
    pub debug: bool,
}

/// Which optional routes exist: the geo routes unless the provider is empty
/// and no database will be downloaded; the port route with port lookup; the
/// debug routes with profiling.
pub fn enabled_routes(config: &Config, geo_is_empty: bool) -> (r: Routes)
    ensures
        r.geo == (!geo_is_empty || !config.no_auto_download),
        r.port == config.port_lookup,
        r.debug == config.profile,
{
    Routes {
        geo: !geo_is_empty || !config.no_auto_download,
        port: config.port_lookup,
        debug: config.profile,
    }
}

/// The message of a refused port parameter.
pub open spec fn invalid_port_message(s: Seq<char>) -> Seq<char> {
    "invalid port: "@ + s
}

/// The port of a `/port/{port}` request: a number from 1 to 65535 in the
/// notation of `u16::from_str`; anything else is refused with `400` and a
/// JSON body.
pub fn parse_port(s: &str) -> (r: Result<u16, AppError>)
    ensures
        match parse_unsigned(s@, 65535) {
            Some(p) => if p == 0 {
                r matches Err(e) && json_error(e, 400, invalid_port_message(s@))
            } else {
                r == Ok::<u16, AppError>(p as u16)
            },
            None => r matches Err(e) && json_error(e, 400, invalid_port_message(s@)),
        },
{
    match parse_unsigned_text(s, 65535) {
        Some(p) if p != 0 => Ok(p as u16),
        _ => {
            let mut msg = "invalid port: ".to_string();
            proof {
                broadcast use vstd::string::group_string_axioms;
                reveal_strlit("invalid port: ");
            }
            msg.append(s);
            Err(AppError::bad_request(msg.as_str()).into_json())
        },
    }
}

/// The message of a refused cache capacity.
pub open spec fn invalid_capacity_message(s: Seq<char>) -> Seq<char> {
    "invalid capacity: "@ + trim(s)
}

/// The capacity in the body of a cache resize request: the body without
/// surrounding white space, in the notation of `usize::from_str`; anything
/// else is refused with `400` and a JSON body.
pub fn parse_capacity(body: &str) -> (r: Result<usize, AppError>)
    ensures
        match parse_unsigned(trim(body@), usize::MAX as nat) {
            Some(c) => r == Ok::<usize, AppError>(c as usize),
            None => r matches Err(e) && json_error(e, 400, invalid_capacity_message(body@)),
        },
{
    let t = trim_str(body);
    match parse_unsigned_text(t, usize::MAX as u64) {
        Some(c) => Ok(c as usize),
        None => {
            let mut msg = "invalid capacity: ".to_string();
            proof {
                broadcast use vstd::string::group_string_axioms;
                reveal_strlit("invalid capacity: ");
            }
            msg.append(t);
            Err(AppError::bad_request(msg.as_str()).into_json())
        },
    }
}

/// The confirmation of a cache resize.
pub fn resize_message(capacity: usize) -> (r: String)
    ensures
        r@ == "Changed cache capacity to "@ + decimal(capacity as nat) + "."@,
{
    let mut s = "Changed cache capacity to ".to_string();
    proof {
        broadcast use vstd::string::group_string_axioms;
    }
    let d = decimal_string(capacity as u128);
    s.append(d.as_str());
    s.append(".");
    s
}

/// The answer to a request for a path that does not exist: `404`, with a JSON
/// body when the client accepts `application/json`.
pub fn not_found_error(accept: &str) -> (r: AppError)
    ensures
        contains_text(accept@, "application/json"@) ==> json_error(r, 404, "404 page not found"@),
        !contains_text(accept@, "application/json"@) ==> plain_error(r, 404, "404 page not found"@),
{
    let e = AppError::not_found("404 page not found");
    if str_contains(accept, "application/json") {
        e.into_json()
    } else {
        e
    }
}

/// A field of a response as the body of a text endpoint: the field and a newline.
pub fn text_line(field: &str) -> (r: String)
    ensures
        r@ == field@ + "\n"@,
{
    let mut s = field.to_string();
    proof {
        broadcast use vstd::string::group_string_axioms;
    }
    s.append("\n");
    s
}

/// The address whose port a `/port/{port}` request tests: that of the client
/// by its trusted headers or peer. An `ip` query parameter is never
/// consulted, so that nobody can have other hosts' ports scanned.
pub fn port_test_ip(trusted: &Vec<String>, headers: &Headers, remote_addr: Option<IpAddress>) -> (r:
    Result<IpAddress, AppError>)
    ensures
        match extract_ip_spec(names_view(trusted@), headers@, None, remote_addr) {
            Ok(o) => r matches Ok(ip) && octets(ip) == o,
            Err(msg) => r matches Err(e) && json_error(e, 400, msg),
        },
{
    match extract_ip(trusted, headers, None, remote_addr) {
        Ok(ip) => Ok(ip),
        Err(msg) => Err(AppError::bad_request(msg.as_str()).into_json()),
    }
}

/// The `User-Agent` value of a request; empty when absent.
pub open spec fn user_agent_of(headers: Seq<(Seq<char>, Seq<char>)>) -> Seq<char> {
    match header_value(headers, "user-agent"@) {
        Some(v) => v,
        None => Seq::empty(),
    }
}

fn user_agent_value(headers: &Headers) -> (r: &str)
    ensures
        r@ == user_agent_of(headers@),
{
    proof {
        reveal_strlit("");
    }
    match headers.get("user-agent") {
        Some(v) => v,
        None => "",
    }
}

/// How a lookup goes on after the cache has been asked.
pub enum Lookup {
    /// The cached response, with this request's user agent.
    Cached(Response),
    /// Nothing cached: the response for this address is still to be built.
    Fresh(IpAddress),
}

/// Starts answering a lookup: picks the address (a refusal is `400` with a
/// JSON body) and asks the cache for it. A cached response is answered with
/// the user agent of this request.
pub fn begin_lookup(
    trusted: &Vec<String>,
    headers: &Headers,
    query_ip: Option<&str>,
    remote_addr: Option<IpAddress>,
    cache: &mut Cache,
) -> (r: Result<Lookup, AppError>)
    ensures
        final(cache).cap() == old(cache).cap(),
        final(cache).eviction_count() == old(cache).eviction_count(),
        match extract_ip_spec(names_view(trusted@), headers@, opt_view(query_ip), remote_addr) {
            Err(msg) => r matches Err(e) && json_error(e, 400, msg) && final(cache).entries() == old(
                cache,
            ).entries(),
            Ok(o) => r matches Ok(l) && match l {
                Lookup::Cached(resp) => {
                    &&& lookup(old(cache).entries(), octets_key(o)) is Some
                    &&& resp@ == with_user_agent_spec(
                        lookup(old(cache).entries(), octets_key(o))->0,
                        reported_user_agent(user_agent_of(headers@)),
                    )
                    &&& final(cache).entries() == touch(old(cache).entries(), octets_key(o))
                },
                Lookup::Fresh(ip) => octets(ip) == o && lookup(old(cache).entries(), octets_key(o)) is None
                    && final(cache).entries() == old(cache).entries(),
            },
        },
{
    let ip = match extract_ip(trusted, headers, query_ip, remote_addr) {
        Ok(ip) => ip,
        Err(msg) => return Err(AppError::bad_request(msg.as_str()).into_json()),
    };
    match cache.get(ip) {
        Some(mut cached) => {
            let ua = user_agent_value(headers);
            attach_user_agent(&mut cached, ua);
            Ok(Lookup::Cached(cached))
        },
        None => {
            assert(!has_key(old(cache).entries(), ip_key(ip)));
            Ok(Lookup::Fresh(ip))
        },
    }
}

/// The host name of a response: the reverse lookup answer, or empty.
pub open spec fn hostname_text(h: Option<String>) -> Seq<char> {
    match h {
        Some(s) => s@,
        None => Seq::empty(),
    }
}

/// Finishes a lookup that the cache could not answer: builds the response
/// for `ip` from the provider's answers and the host name, stores it in the
/// cache without a user agent, and answers it with the user agent of this
/// request.
pub fn finish_lookup<G: GeoProvider + ?Sized>(
    geo: &G,
    cache: &mut Cache,
    ip: IpAddress,
    hostname: Option<String>,
    headers: &Headers,
) -> (r: Response)
    requires
        old(cache).eviction_count() < u64::MAX,
    ensures
        final(cache).cap() == old(cache).cap(),
        ({
            let stored = response_spec(
                ip,
                geo.country_of(ip),
                geo.city_of(ip),
                geo.asn_of(ip),
                hostname_text(hostname),
            );
            &&& r@ == with_user_agent_spec(stored, reported_user_agent(user_agent_of(headers@)))
            &&& old(cache).cap() > 0 ==> final(cache).entries() == push_entry(
                old(cache).entries(),
                old(cache).cap(),
                ip_key(ip),
                stored,
            )
            &&& old(cache).cap() == 0 ==> final(cache).entries() == old(cache).entries()
        }),
{
    let country = geo.country(ip);
    let city = geo.city(ip);
    let asn = geo.asn(ip);
    let host = match hostname {
        Some(h) => h,
        None => String::new(),
    };
    let resp = assemble_response(ip, country, city, asn, host);
    let mut answer = resp.clone();
    cache.set(ip, resp);
    let ua = user_agent_value(headers);
    attach_user_agent(&mut answer, ua);
    answer
}

/// A response built for an address is stored without a user agent, and a
/// later lookup of that address finds exactly it: each request is then
/// answered with the stored response and its own user agent, and a request
/// without a user agent gets the stored response itself. (`Cache::check_consistent`
/// gives `lru_wf` of any cache that caches.)
pub proof fn law_cached_answer_is_stored_answer(
    es: Seq<crate::cache::Entry>,
    cap: nat,
    ip: IpAddress,
    stored: ResponseView,
    ua: Seq<char>,
)
    requires
        crate::cache::lru_wf(es, cap),
        stored.user_agent is None,
    ensures
        lookup(push_entry(es, cap, ip_key(ip), stored), octets_key(octets(ip))) == Some(stored),
        with_user_agent_spec(stored, reported_user_agent(ua)).user_agent == reported_user_agent(ua),
        with_user_agent_spec(stored, reported_user_agent(ua)) == (ResponseView {
            user_agent: reported_user_agent(ua),
            ..stored
        }),
        ua.len() == 0 ==> with_user_agent_spec(stored, reported_user_agent(ua)) == stored,
{
    crate::cache::law_get_after_set(es, cap, ip_key(ip), stored);
}

/// Two lookups of one address that is not yet cached, in a cache that
/// caches: the first builds the response from the provider's answers and
/// stores it without a user agent, growing the cache by one entry when it is
/// not full; the second is answered from the cache (`begin_lookup` gives
/// `Cached`, and no provider is asked) with that same response and its own
/// user agent, so that the two answers differ at most in the user agent,
/// one request's user agent never reaches the other, and the entry that stays
/// cached carries none; the second lookup leaves the number of entries as it is.
pub proof fn law_second_lookup_comes_from_cache(
    es: Seq<crate::cache::Entry>,
    cap: nat,
    ip: IpAddress,
    country: Option<crate::geo::CountryView>,
    city: Option<crate::geo::CityView>,
    asn: Option<crate::geo::AsnView>,
    hostname: Seq<char>,
    ua1: Seq<char>,
    ua2: Seq<char>,
)
    requires
        crate::cache::lru_wf(es, cap),
        lookup(es, octets_key(octets(ip))) is None,
    ensures
        ({
            let stored = response_spec(ip, country, city, asn, hostname);
            let es1 = push_entry(es, cap, ip_key(ip), stored);
            let first = with_user_agent_spec(stored, reported_user_agent(ua1));
            let found = lookup(es1, octets_key(octets(ip)));
            let es2 = touch(es1, octets_key(octets(ip)));
            &&& stored.user_agent is None
            &&& found == Some(stored)
            &&& with_user_agent_spec(found->0, reported_user_agent(ua2)) == (ResponseView {
                user_agent: reported_user_agent(ua2),
                ..first
            })
            &&& ua2.len() == 0 ==> with_user_agent_spec(found->0, reported_user_agent(ua2)).user_agent is None
            &&& es.len() < cap ==> es1.len() == es.len() + 1
            &&& es2.len() == es1.len()
            &&& lookup(es2, octets_key(octets(ip))) == Some(stored)
        }),
{
    let stored = response_spec(ip, country, city, asn, hostname);
    let k = ip_key(ip);
    crate::cache::law_get_after_set(es, cap, k, stored);
    crate::cache::law_set_within_capacity(es, cap, k, stored);
    let es1 = push_entry(es, cap, k, stored);
    assert(has_key(es1, k));
    crate::cache::lemma_touch_keeps(es1, cap, k);
}

/// The responses that are built for the cache carry no user agent.
pub proof fn law_built_response_has_no_user_agent(
    ip: IpAddress,
    country: Option<crate::geo::CountryView>,
    city: Option<crate::geo::CityView>,
    asn: Option<crate::geo::AsnView>,
    hostname: Seq<char>,
)
    ensures
        response_spec(ip, country, city, asn, hostname).user_agent is None,
{
}

} // verus!
