# echoip

A service that tells clients their IP address, with geolocation (MaxMind
GeoIP2/GeoLite2 and ip66.dev databases), reverse DNS, port testing and an LRU
response cache. The core is verified with Verus.

## Layout

- `src/` — the verified library:
  - `text`, `headers`: character-level helpers and request header fields;
  - `ip`, `ip_text`: reading addresses from text (IPv4, IPv6, with ports and
    brackets), choosing the client address of a request, decimal values;
  - `user_agent`: splitting `User-Agent` values, recognising CLI clients;
  - `geo`: the provider trait, the MaxMind and ip66.dev providers over
    `maxminddb`, the composite provider with fallback, and (`geo::layout`)
    the check that database bytes can be handed to `maxminddb` without it
    panicking or recursing without end;
  - `response`, `cache`: the lookup answer and the LRU cache over `lru`;
  - `server`: content negotiation, routes, parameters, and answering a lookup
    from the cache or the provider;
  - `db_updater`: credentials, download requests, archive extraction over
    `tar`/`flate2`, and the choice of providers;
  - `config`, `error`: settings and client errors.
- `app/` — the executable around the library: command line, environment,
  file and network I/O, the axum router and handlers, JSON and HTML output,
  and the periodic database update with hot swapping.
- `tests/` — tests of the library.

Calls into outside crates go through small trusted wrappers whose contracts
state what the crates' sources show; everything else in `src/` is proved.
