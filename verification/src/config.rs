//! Configuration data: server and client settings, and the per-user table
//! with its IP allowlist.
//!
//! The user table keys entries by username, usernames unique.  An empty
//! allowlist admits any source IP; otherwise an entry admits the IP that
//! equals it literally, or any IP a CIDR entry contains.  Addresses follow
//! the grammar of the address module: IPv4-mapped text forms such as a
//! dotted-quad tail after `::` are not read, so such ranges are written as
//! IPv4 networks or as plain hexadecimal groups.  Reading and writing
//! configuration files is the surrounding application's work.

use vstd::prelude::*;

verus! {

use vstd::string::StringExecFns;
use vstd::string::StringSliceAdditionalSpecFns;
use vstd::utf8::encode_utf8;
use crate::crypto::str_eq;
use crate::ipaddr::{IpAddress, IpNetwork, spec_parse_ip, spec_parse_network, parse_ip,
    parse_network, spec_network_contains, network_contains};

/// Server configuration.
#[derive(Debug, Clone)]
pub struct ServerConfig {
    /// Listen address.
    pub host: String,
    /// Listen port.
    pub port: u16,
    /// SMTP hostname to advertise.
    pub hostname: String,
    /// TLS certificate file.
    pub cert_file: String,
    /// TLS key file.
    pub key_file: String,
    /// Users file path.
    pub users_file: String,
    /// Global logging setting.
    pub log_users: bool,
}

impl Default for ServerConfig {
    /// The stock server settings.
    fn default() -> (r: Self)
        ensures
            r.host@ == "0.0.0.0"@,
            r.port == 587,
            r.hostname@ == "mail.example.com"@,
            r.cert_file@ == "server.crt"@,
            r.key_file@ == "server.key"@,
            r.users_file@ == "users.yaml"@,
            r.log_users,
    {
        ServerConfig {
            host: String::from_str("0.0.0.0"),
            port: 587,
            hostname: String::from_str("mail.example.com"),
            cert_file: String::from_str("server.crt"),
            key_file: String::from_str("server.key"),
            users_file: String::from_str("users.yaml"),
            log_users: true,
        }
    }
}

/// Client configuration.
#[derive(Debug, Clone)]
pub struct ClientConfig {
    /// Server hostname.
    pub server_host: String,
    /// Server port.
    pub server_port: u16,
    /// Local SOCKS5 port.
    pub socks_port: u16,
    /// Local SOCKS5 bind address.
    pub socks_host: String,
    /// Username.
    pub username: String,
    /// Secret.
    pub secret: String,
    /// CA certificate file, when the server certificate is to be verified.
    pub ca_cert: Option<String>,
}

impl Default for ClientConfig {
    /// The stock client settings.
    fn default() -> (r: Self)
        ensures
            r.server_host@.len() == 0,
            r.server_port == 587,
            r.socks_port == 1080,
            r.socks_host@ == "127.0.0.1"@,
            r.username@.len() == 0,
            r.secret@.len() == 0,
            r.ca_cert is None,
    {
        ClientConfig {
            server_host: String::new(),
            server_port: 587,
            socks_port: 1080,
            socks_host: String::from_str("127.0.0.1"),
            username: String::new(),
            secret: String::new(),
            ca_cert: None,
        }
    }
}

/// One user's record: secret, IP allowlist, and logging flag.
#[derive(Debug, Clone)]
pub struct UserEntry {
    /// Authentication secret.
    pub secret: String,
    /// IP allowlist; empty admits every source IP.
    pub whitelist: Vec<String>,
    /// Whether this user's activity is logged.
    pub logging: bool,
}

/// The record the table holds for a username: the first entry with that
/// name decides.
pub open spec fn spec_user_lookup(entries: Seq<(String, UserEntry)>, name: Seq<char>) -> Option<
    UserEntry,
>
    decreases entries.len(),
{
    if entries.len() == 0 {
        None
    } else if entries[0].0@ == name {
        Some(entries[0].1)
    } else {
        spec_user_lookup(entries.drop_first(), name)
    }
}

/// Usernames are unique in the table.
pub open spec fn spec_users_unique(entries: Seq<(String, UserEntry)>) -> bool {
    forall|i: int, j: int|
        0 <= i < j < entries.len() ==> (#[trigger] entries[i]).0@ != (#[trigger] entries[j]).0@
}

proof fn lemma_lookup_absent(entries: Seq<(String, UserEntry)>, name: Seq<char>)
    requires
        forall|i: int| 0 <= i < entries.len() ==> (#[trigger] entries[i]).0@ != name,
    ensures
        spec_user_lookup(entries, name) is None,
    decreases entries.len(),
{
    if entries.len() > 0 {
        assert forall|i: int| 0 <= i < entries.drop_first().len() implies (
        #[trigger] entries.drop_first()[i]).0@ != name by {
            assert(entries.drop_first()[i] == entries[i + 1]);
        }
        lemma_lookup_absent(entries.drop_first(), name);
    }
}

proof fn lemma_lookup_found(entries: Seq<(String, UserEntry)>, i: int)
    requires
        spec_users_unique(entries),
        0 <= i < entries.len(),
    ensures
        spec_user_lookup(entries, entries[i].0@) == Some(entries[i].1),
    decreases i,
{
    if i > 0 {
        assert(entries[0].0@ != entries[i].0@);
        assert(entries.drop_first()[i - 1] == entries[i]);
        lemma_lookup_found(entries.drop_first(), i - 1);
    }
}

proof fn lemma_lookup_remove(entries: Seq<(String, UserEntry)>, i: int, name: Seq<char>)
    requires
        spec_users_unique(entries),
        0 <= i < entries.len(),
    ensures
        spec_user_lookup(entries.remove(i), name) == if name == entries[i].0@ {
            None
        } else {
            spec_user_lookup(entries, name)
        },
        spec_users_unique(entries.remove(i)),
    decreases i,
{
    let r = entries.remove(i);
    assert forall|a: int, b: int| 0 <= a < b < r.len() implies (#[trigger] r[a]).0@ != (
    #[trigger] r[b]).0@ by {
        let a2 = if a < i {
            a
        } else {
            a + 1
        };
        let b2 = if b < i {
            b
        } else {
            b + 1
        };
        assert(r[a] == entries[a2]);
        assert(r[b] == entries[b2]);
    }
    if i == 0 {
        assert(r =~= entries.drop_first());
        if name == entries[0].0@ {
            assert forall|k: int| 0 <= k < r.len() implies (#[trigger] r[k]).0@ != name by {
                assert(r[k] == entries[k + 1]);
            }
            lemma_lookup_absent(r, name);
        }
    } else {
        assert(r[0] == entries[0]);
        if entries[0].0@ != name {
            assert(r.drop_first() =~= entries.drop_first().remove(i - 1));
            assert(entries.drop_first()[i - 1] == entries[i]);
            lemma_lookup_remove(entries.drop_first(), i - 1, name);
        }
    }
}

/// The users table, keyed by username.
#[derive(Debug, Clone)]
pub struct UsersConfig {
    users: Vec<(String, UserEntry)>,
}

impl UsersConfig {
    /// The table's entries, in order.
    pub closed spec fn entries(self) -> Seq<(String, UserEntry)> {
        self.users@
    }

    /// The record the table holds for a username.
    pub open spec fn lookup(self, name: Seq<char>) -> Option<UserEntry> {
        spec_user_lookup(self.entries(), name)
    }

    /// The table is well formed: usernames are unique.
    pub open spec fn wf(self) -> bool {
        spec_users_unique(self.entries())
    }

    /// Create an empty table.
    pub fn new() -> (r: Self)
        ensures
            r.wf(),
            r.entries().len() == 0,
            forall|n: Seq<char>| #[trigger] r.lookup(n) is None,
    {
        UsersConfig { users: Vec::new() }
    }

    /// Find the index of a username.
    fn find_user(&self, username: &str) -> (r: Option<usize>)
        ensures
            match r {
                Some(i) => i < self.entries().len() && self.entries()[i as int].0@ == username@,
                None => forall|i: int|
                    0 <= i < self.entries().len() ==> (#[trigger] self.entries()[i]).0@
                        != username@,
            },
    {
        let mut i: usize = 0;
        let n: usize = self.users.len();
        while i < n
            invariant
                0 <= i <= n,
                n == self.users@.len(),
                forall|j: int| 0 <= j < i ==> (#[trigger] self.users@[j]).0@ != username@,
            decreases n - i,
        {
            if str_eq(self.users[i].0.as_str(), username) {
                return Some(i);
            }
            i = i + 1;
        }
        None
    }

    /// Get a user's record by name.
    pub fn get_user(&self, username: &str) -> (r: Option<&UserEntry>)
        requires
            self.wf(),
        ensures
            match r {
                Some(u) => self.lookup(username@) == Some(*u),
                None => self.lookup(username@) is None,
            },
    {
        match self.find_user(username) {
            Some(i) => {
                proof {
                    lemma_lookup_found(self.entries(), i as int);
                }
                Some(&self.users[i].1)
            },
            None => {
                proof {
                    lemma_lookup_absent(self.entries(), username@);
                }
                None
            },
        }
    }

    /// Add a user's record, replacing any earlier record under the name.
    pub fn set_user(&mut self, username: &str, entry: UserEntry)
        requires
            old(self).wf(),
        ensures
            final (self).wf(),
            final (self).lookup(username@) == Some(entry),
            forall|n: Seq<char>|
                n != username@ ==> #[trigger] final (self).lookup(n) == old(self).lookup(n),
    {
        match self.find_user(username) {
            Some(i) => {
                proof {
                    lemma_lookup_found(self.entries(), i as int);
                    lemma_lookup_remove(self.entries(), i as int, username@);
                }
                let ghost mid = self.users@.remove(i as int);
                self.users.remove(i);
                proof {
                    assert forall|n: Seq<char>| n != username@ implies spec_user_lookup(mid, n)
                        == old(self).lookup(n) by {
                        lemma_lookup_remove(old(self).entries(), i as int, n);
                    }
                }
                self.users.insert(0, (String::from_str(username), entry));
                proof {
                    assert(self.users@.drop_first() =~= mid);
                    assert forall|a: int, b: int| 0 <= a < b < self.users@.len() implies (
                    #[trigger] self.users@[a]).0@ != (#[trigger] self.users@[b]).0@ by {
                        if a > 0 {
                            assert(self.users@[a] == mid[a - 1]);
                            assert(self.users@[b] == mid[b - 1]);
                        } else {
                            assert(self.users@[b] == mid[b - 1]);
                            lemma_lookup_found(mid, b - 1);
                        }
                    }
                    assert(self.users@[0].0@ == username@);
                    assert forall|n: Seq<char>| n != username@ implies #[trigger] spec_user_lookup(
                        self.users@,
                        n,
                    ) == old(self).lookup(n) by {
                        assert(spec_user_lookup(self.users@, n) == spec_user_lookup(mid, n));
                    }
                }
            },
            None => {
                let ghost mid = self.users@;
                self.users.insert(0, (String::from_str(username), entry));
                proof {
                    assert(self.users@.drop_first() =~= mid);
                    assert forall|a: int, b: int| 0 <= a < b < self.users@.len() implies (
                    #[trigger] self.users@[a]).0@ != (#[trigger] self.users@[b]).0@ by {
                        if a > 0 {
                            assert(self.users@[a] == mid[a - 1]);
                            assert(self.users@[b] == mid[b - 1]);
                        } else {
                            assert(self.users@[b] == mid[b - 1]);
                        }
                    }
                    lemma_lookup_absent(mid, username@);
                    assert(self.users@[0].0@ == username@);
                    assert forall|n: Seq<char>| n != username@ implies #[trigger] spec_user_lookup(
                        self.users@,
                        n,
                    ) == old(self).lookup(n) by {
                        assert(spec_user_lookup(self.users@, n) == spec_user_lookup(mid, n));
                    }
                }
            },
        }
    }

    /// Remove a user's record, returning it.
    pub fn remove_user(&mut self, username: &str) -> (r: Option<UserEntry>)
        requires
            old(self).wf(),
        ensures
            final (self).wf(),
            r == old(self).lookup(username@),
            final (self).lookup(username@) is None,
            forall|n: Seq<char>|
                n != username@ ==> #[trigger] final (self).lookup(n) == old(self).lookup(n),
    {
        match self.find_user(username) {
            Some(i) => {
                proof {
                    lemma_lookup_found(self.entries(), i as int);
                    lemma_lookup_remove(self.entries(), i as int, username@);
                    assert forall|n: Seq<char>| n != username@ implies spec_user_lookup(
                        self.users@.remove(i as int),
                        n,
                    ) == old(self).lookup(n) by {
                        lemma_lookup_remove(old(self).entries(), i as int, n);
                    }
                }
                let (_, entry) = self.users.remove(i);
                Some(entry)
            },
            None => {
                proof {
                    lemma_lookup_absent(self.entries(), username@);
                }
                None
            },
        }
    }

    /// How many users the table holds.
    pub fn len(&self) -> (r: usize)
        ensures
            r == self.entries().len(),
    {
        self.users.len()
    }

    /// Whether a source IP is admitted for a user: the user exists and the
    /// allowlist is empty, matches the IP literally, or contains it as a
    /// CIDR network.
    pub fn is_ip_whitelisted(&self, username: &str, ip: &str) -> (r: bool)
        requires
            self.wf(),
        ensures
            r == match self.lookup(username@) {
                None => false,
                Some(u) => spec_whitelist_allows(u.whitelist@, ip@),
            },
    {
        let user: &UserEntry = match self.get_user(username) {
            Some(u) => u,
            None => {
                return false;
            },
        };
        whitelist_allows(&user.whitelist, ip)
    }
}

/// Whether one allowlist entry admits an IP: a literal match, or a CIDR
/// entry that contains it.
pub open spec fn spec_entry_allows(entry: Seq<char>, ip: Seq<char>) -> bool {
    ||| entry == ip
    ||| match spec_parse_network(encode_utf8(entry)) {
        Some(net) => match spec_parse_ip(encode_utf8(ip)) {
            Some(a) => spec_network_contains(net, a),
            None => false,
        },
        None => false,
    }
}

/// Whether an allowlist admits an IP: it is empty, or some entry admits it.
pub open spec fn spec_whitelist_allows(wl: Seq<String>, ip: Seq<char>) -> bool {
    ||| wl.len() == 0
    ||| exists|i: int| 0 <= i < wl.len() && spec_entry_allows((#[trigger] wl[i])@, ip)
}

/// Decide whether an allowlist admits an IP.
pub fn whitelist_allows(wl: &Vec<String>, ip: &str) -> (r: bool)
    ensures
        r == spec_whitelist_allows(wl@, ip@),
{
    let n: usize = wl.len();
    if n == 0 {
        return true;
    }
    let addr: Option<IpAddress> = parse_ip(ip.as_bytes());
    let mut i: usize = 0;
    while i < n
        invariant
            0 <= i <= n,
            n == wl@.len(),
            addr == spec_parse_ip(ip.spec_bytes()),
            forall|j: int| 0 <= j < i ==> !spec_entry_allows((#[trigger] wl@[j])@, ip@),
        decreases n - i,
    {
        let entry: &String = &wl[i];
        if str_eq(entry.as_str(), ip) {
            return true;
        }
        match parse_network(entry.as_str().as_bytes()) {
            Some(net) => {
                match &addr {
                    Some(a) => {
                        if network_contains(&net, a) {
                            return true;
                        }
                    },
                    None => {},
                }
            },
            None => {},
        }
        i = i + 1;
    }
    false
}

/// Full configuration: server and client halves.
#[derive(Debug, Clone)]
pub struct Config {
    pub server: ServerConfig,
    pub client: ClientConfig,
}

impl Config {
    /// Create the stock configuration.
    pub fn new() -> (r: Self)
        ensures
            r.server.port == 587,
            r.client.socks_port == 1080,
    {
        Config { server: ServerConfig::default(), client: ClientConfig::default() }
    }
}

impl Default for Config {
    /// The stock configuration.
    fn default() -> (r: Self)
        ensures
            r.server.port == 587,
            r.client.socks_port == 1080,
    {
        Config::new()
    }
}

/// The commented example configuration file.
pub fn generate_example_config() -> (r: String)
    ensures
        r@.len() > 0,
{
    let s = String::from_str(
        "# SMTP Tunnel Configuration\n# Copy this file and customize for your setup\n\nserver:\n  # Listen address (0.0.0.0 for all interfaces)\n  host: \"0.0.0.0\"\n\n  # SMTP submission port (587 is standard)\n  port: 587\n\n  # Hostname to advertise in SMTP greeting\n  hostname: \"mail.example.com\"\n\n  # TLS certificate and key files\n  cert_file: \"server.crt\"\n  key_file: \"server.key\"\n\n  # Users configuration file\n  users_file: \"users.yaml\"\n\n  # Global logging setting\n  log_users: true\n\nclient:\n  # Tunnel server domain name (FQDN required for certificate verification)\n  server_host: \"mail.example.com\"\n\n  # Tunnel server port\n  server_port: 587\n\n  # Local SOCKS5 proxy port\n  socks_port: 1080\n\n  # Local SOCKS5 bind address (127.0.0.1 = localhost only)\n  socks_host: \"127.0.0.1\"\n\n  # Username and secret (set per-user)\n  username: \"alice\"\n  secret: \"your-secret-here\"\n\n  # CA certificate for server verification (RECOMMENDED for security)\n  ca_cert: \"ca.crt\"\n",
    );
    proof {
        reveal_strlit(
            "# SMTP Tunnel Configuration\n# Copy this file and customize for your setup\n\nserver:\n  # Listen address (0.0.0.0 for all interfaces)\n  host: \"0.0.0.0\"\n\n  # SMTP submission port (587 is standard)\n  port: 587\n\n  # Hostname to advertise in SMTP greeting\n  hostname: \"mail.example.com\"\n\n  # TLS certificate and key files\n  cert_file: \"server.crt\"\n  key_file: \"server.key\"\n\n  # Users configuration file\n  users_file: \"users.yaml\"\n\n  # Global logging setting\n  log_users: true\n\nclient:\n  # Tunnel server domain name (FQDN required for certificate verification)\n  server_host: \"mail.example.com\"\n\n  # Tunnel server port\n  server_port: 587\n\n  # Local SOCKS5 proxy port\n  socks_port: 1080\n\n  # Local SOCKS5 bind address (127.0.0.1 = localhost only)\n  socks_host: \"127.0.0.1\"\n\n  # Username and secret (set per-user)\n  username: \"alice\"\n  secret: \"your-secret-here\"\n\n  # CA certificate for server verification (RECOMMENDED for security)\n  ca_cert: \"ca.crt\"\n",
        );
    }
    s
}

/// The commented example users file.
pub fn generate_example_users() -> (r: String)
    ensures
        r@.len() > 0,
{
    let s = String::from_str(
        "# SMTP Tunnel Users\n# Managed by smtp-tunnel-adduser\n\nusers:\n  alice:\n    secret: \"auto-generated-secret-here\"\n    logging: true\n    # whitelist:\n    #   - 192.168.1.100\n    #   - 10.0.0.0/8\n\n  bob:\n    secret: \"another-secret-here\"\n    logging: true\n    whitelist: []\n",
    );
    proof {
        reveal_strlit(
            "# SMTP Tunnel Users\n# Managed by smtp-tunnel-adduser\n\nusers:\n  alice:\n    secret: \"auto-generated-secret-here\"\n    logging: true\n    # whitelist:\n    #   - 192.168.1.100\n    #   - 10.0.0.0/8\n\n  bob:\n    secret: \"another-secret-here\"\n    logging: true\n    whitelist: []\n",
        );
    }
    s
}

} // verus!
