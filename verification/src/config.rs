//! Server settings.
use vstd::prelude::*;

verus! {

/// The settings of the server, as given on the command line.
#[derive(Debug, Clone)]
pub struct Config {
    /// Path to the GeoIP country database.
    pub country_db: String,
    /// Path to the GeoIP city database.
    pub city_db: String,
    /// Path to the GeoIP ASN database.
    pub asn_db: String,
    /// Listening address.
    pub listen: String,
    /// Perform reverse host name lookups.
    pub reverse_lookup: bool,
    /// Enable port lookup.
    pub port_lookup: bool,
    /// Path to the template directory.
    pub template: String,
    /// Size of the response cache (zero disables it).
    pub cache_size: usize,
    /// Enable the debug handlers.
    pub profile: bool,
    /// Show the sponsor logo.
    pub sponsor: bool,
    /// Headers trusted to carry the client address.
    pub trusted_headers: Vec<String>,
    /// Path to the ip66.dev database.
    pub ip66_db: Option<String>,
    /// Directory for downloaded databases.
    pub data_dir: String,
    /// Database update interval in hours (zero disables updates).
    pub update_interval: u64,
    /// Do not download databases on startup.
    pub no_auto_download: bool,
}

/// The address to bind: a listen address that gives only a port (`:8080`)
/// means every IPv4 interface.
pub open spec fn listen_addr_spec(listen: Seq<char>) -> Seq<char> {
    if listen.len() > 0 && listen[0] == ':' {
        "0.0.0.0"@ + listen
    } else {
        listen
    }
}

impl Config {
    /// The address to bind; see `listen_addr_spec`.
    pub fn listen_addr(&self) -> (r: String)
        ensures
            r@ == listen_addr_spec(self.listen@),
    {
        proof {
            reveal_strlit("0.0.0.0");
            reveal_strlit(":");
        }
        let listen = self.listen.as_str();
        let cs = crate::text::chars_of(listen);
        if cs.len() > 0 && cs[0] == ':' {
            let mut s = "0.0.0.0".to_string();
            proof {
                broadcast use vstd::string::group_string_axioms;
            }
            s.append(listen);
            s
        } else {
            listen.to_string()
        }
    }

    /// The time between database updates in seconds: none when updates are
    /// disabled (an interval of zero), else the interval in hours times 3600,
    /// at most `u64::MAX`.
    pub fn update_period_secs(&self) -> (r: Option<u64>)
        ensures
            self.update_interval == 0 ==> r is None,
            self.update_interval > 0 ==> r == Some(
                if self.update_interval * 3600 <= u64::MAX {
                    (self.update_interval * 3600) as u64
                } else {
                    u64::MAX
                },
            ),
    {
        if self.update_interval == 0 {
            None
        } else {
            match self.update_interval.checked_mul(3600) {
                Some(secs) => Some(secs),
                None => Some(u64::MAX),
            }
        }
    }
}

} // verus!
