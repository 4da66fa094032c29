//! Authentication tokens: time-bounded HMAC credentials.
//!
//! A token is `base64( username ":" timestamp ":" base64(hmac_sha256(secret,
//! "smtp-tunnel-auth:" username ":" timestamp)) )`.  Verification decodes,
//! checks freshness (no forward skew is allowed: a timestamp after `now` is
//! rejected), looks the user up, recomputes the expected token, and compares
//! in constant time.

use vstd::prelude::*;
use hmac::Mac;

verus! {

use vstd::string::StringSliceAdditionalSpecFns;
use vstd::string::StringExecFns;
use vstd::string::StrSliceExecFns;
use vstd::utf8::{valid_utf8, decode_utf8, encode_utf8};
use crate::b64::{spec_b64_encode, spec_b64_decode, b64_encode, b64_decode, lemma_b64_roundtrip,
    lemma_b64_encode_no_colon};
use crate::text::{spec_dec_bytes, spec_parse_dec, spec_split, u64_to_dec_bytes, parse_dec_bytes,
    split_bytes, string_from_utf8, lemma_dec_bytes_digits, lemma_dec_roundtrip, lemma_split_step,
    lemma_split_whole, lemma_encode_utf8_byte_free};

/// The HMAC-SHA256 tag of a message under a key.
pub uninterp spec fn hmac_sha256_of(key: Seq<u8>, msg: Seq<u8>) -> Seq<u8>;

/// Compute an HMAC-SHA256 tag.
///
/// Relies on the hmac and sha2 crates: the tag is a function of the key and
/// the message alone, and a SHA-256 tag is 32 bytes.  `new_from_slice`
/// accepts keys of any length for HMAC.
#[verifier::external_body]
fn hmac_sha256(key: &[u8], msg: &[u8]) -> (r: Vec<u8>)
    ensures
        r@ == hmac_sha256_of(key@, msg@),
        r@.len() == 32,
{
    let mut mac = hmac::Hmac::<sha2::Sha256>::new_from_slice(key)
        .expect("HMAC accepts keys of any length");
    mac.update(msg);
    mac.finalize().into_bytes().to_vec()
}

/// Seconds of the system clock since the Unix epoch.
///
/// Relies on std::time::SystemTime; nothing is promised of the value, the
/// clock is environmental.  A clock before the epoch reads as zero.
#[verifier::external_body]
pub fn unix_now() -> u64 {
    std::time::SystemTime::now()
        .duration_since(std::time::UNIX_EPOCH)
        .map(|d| d.as_secs())
        .unwrap_or(0)
}

/// Constant-time byte comparison: equal-length inputs are compared without
/// an early exit on the first mismatch.
pub fn ct_eq(a: &[u8], b: &[u8]) -> (r: bool)
    ensures
        r == (a@ == b@),
{
    if a.len() != b.len() {
        proof {
            assert(a@ != b@);
        }
        return false;
    }
    let mut diff: u8 = 0;
    let mut i: usize = 0;
    while i < a.len()
        invariant
            0 <= i <= a@.len(),
            a@.len() == b@.len(),
            (diff == 0) <==> (forall|j: int| 0 <= j < i ==> a@[j] == b@[j]),
        decreases a@.len() - i,
    {
        let x: u8 = a[i] ^ b[i];
        proof {
            let av = a@[i as int];
            let bv = b@[i as int];
            assert((av ^ bv) == 0 <==> av == bv) by (bit_vector);
            assert(forall|p: u8, q: u8| (p | q) == 0 <==> p == 0 && q == 0) by (bit_vector);
        }
        diff = diff | x;
        i = i + 1;
    }
    if diff == 0 {
        proof {
            assert(a@ =~= b@);
        }
        true
    } else {
        false
    }
}

/// Whether two strings hold the same characters.
pub fn str_eq(a: &str, b: &str) -> (r: bool)
    ensures
        r == (a@ == b@),
{
    let r = ct_eq(a.as_bytes(), b.as_bytes());
    proof {
        if a.spec_bytes() == b.spec_bytes() {
            vstd::utf8::encode_utf8_decode_utf8(a@);
            vstd::utf8::encode_utf8_decode_utf8(b@);
        }
    }
    r
}

/// The HMAC input of a token: `"smtp-tunnel-auth:" username ":" timestamp`.
pub open spec fn spec_auth_msg(username: Seq<u8>, ts: u64) -> Seq<u8> {
    "smtp-tunnel-auth:".spec_bytes() + username + seq![58u8] + spec_dec_bytes(ts as nat)
}

/// The inner token string: `username ":" timestamp ":" base64(mac)`.
pub open spec fn spec_inner(secret: Seq<u8>, username: Seq<u8>, ts: u64) -> Seq<u8> {
    username + seq![58u8] + spec_dec_bytes(ts as nat) + seq![58u8] + spec_b64_encode(
        hmac_sha256_of(secret, spec_auth_msg(username, ts)),
    )
}

/// The token bytes a secret, username, and timestamp generate.
pub open spec fn spec_token(secret: Seq<u8>, username: Seq<u8>, ts: u64) -> Seq<u8> {
    spec_b64_encode(spec_inner(secret, username, ts))
}

/// A timestamp is fresh when it is not in the future and not older than the
/// age bound.
pub open spec fn spec_fresh(ts: u64, now: u64, max_age: u64) -> bool {
    ts <= now && now - ts <= max_age
}

/// The username bytes and timestamp a token carries, when it has the
/// expected shape: base64 over exactly three colon-separated parts, the
/// second an unsigned decimal number.
pub open spec fn spec_token_parts(token: Seq<u8>) -> Option<(Seq<u8>, u64)> {
    match spec_b64_decode(token) {
        None => None,
        Some(d) => {
            let parts = spec_split(d, 58);
            if parts.len() == 3 {
                match spec_parse_dec(parts[1]) {
                    Some(ts) => Some((parts[0], ts)),
                    None => None,
                }
            } else {
                None
            }
        },
    }
}

/// A token verifies against a secret exactly when it carries a fresh
/// timestamp and equals the token generated from that secret for its own
/// username and timestamp.
pub open spec fn spec_verify(token: Seq<u8>, secret: Seq<u8>, max_age: u64, now: u64) -> bool {
    match spec_token_parts(token) {
        None => false,
        Some((ub, ts)) => {
            &&& spec_fresh(ts, now, max_age)
            &&& valid_utf8(ub)
            &&& token == spec_token(secret, ub, ts)
        },
    }
}

/// Authentication token manager.
pub struct AuthToken;

impl AuthToken {
    /// Generate an authentication token for a username at a timestamp.
    pub fn generate(secret: &str, username: &str, timestamp: u64) -> (r: String)
        ensures
            encode_utf8(r@) == spec_token(secret.spec_bytes(), username.spec_bytes(), timestamp),
            vstd::utf8::is_ascii_chars(r@),
    {
        let mut msg: Vec<u8> = "smtp-tunnel-auth:".as_bytes_vec();
        let mut ub: Vec<u8> = username.as_bytes_vec();
        msg.append(&mut ub);
        msg.push(58);
        let mut tb: Vec<u8> = u64_to_dec_bytes(timestamp);
        msg.append(&mut tb);
        proof {
            assert(msg@ =~= spec_auth_msg(username.spec_bytes(), timestamp));
        }
        let mac: Vec<u8> = hmac_sha256(secret.as_bytes(), msg.as_slice());
        let mac64: String = b64_encode(mac.as_slice());
        let mut inner: Vec<u8> = username.as_bytes_vec();
        inner.push(58);
        let mut tb2: Vec<u8> = u64_to_dec_bytes(timestamp);
        inner.append(&mut tb2);
        inner.push(58);
        let mut mb: Vec<u8> = mac64.as_str().as_bytes_vec();
        inner.append(&mut mb);
        proof {
            assert(inner@ =~= spec_inner(secret.spec_bytes(), username.spec_bytes(), timestamp));
        }
        b64_encode(inner.as_slice())
    }

    /// Generate a token stamped with the current time.
    ///
    /// The stamp comes from the system clock; the exact contract is on
    /// [`AuthToken::generate`].
    pub fn generate_now(secret: &str, username: &str) -> (r: String)
        ensures
            exists|ts: u64|
                encode_utf8(r@) == #[trigger] spec_token(
                    secret.spec_bytes(),
                    username.spec_bytes(),
                    ts,
                ),
    {
        let timestamp: u64 = unix_now();
        Self::generate(secret, username, timestamp)
    }

    /// Verify a token against one secret at a given time.
    ///
    /// Returns `(true, Some(username))` exactly when the token is the one
    /// generated from the secret for its embedded username and timestamp and
    /// the timestamp is fresh: not after `now` and at most `max_age_secs`
    /// old.
    pub fn verify_at(token_b64: &str, secret: &str, max_age_secs: u64, now: u64) -> (r: (
        bool,
        Option<String>,
    ))
        ensures
            r.0 == spec_verify(token_b64.spec_bytes(), secret.spec_bytes(), max_age_secs, now),
            r.0 ==> r.1 is Some && encode_utf8(r.1->Some_0@) == (spec_token_parts(
                token_b64.spec_bytes(),
            )->Some_0).0,
            !r.0 ==> r.1 is None,
    {
        let decoded: Vec<u8> = match b64_decode(token_b64.as_bytes()) {
            Some(d) => d,
            None => {
                return (false, None);
            },
        };
        let mut parts: Vec<Vec<u8>> = split_bytes(decoded.as_slice(), 58);
        if parts.len() != 3 {
            return (false, None);
        }
        let ts: u64 = match parse_dec_bytes(parts[1].as_slice()) {
            Some(t) => t,
            None => {
                return (false, None);
            },
        };
        if ts > now {
            return (false, None);
        }
        if now - ts > max_age_secs {
            return (false, None);
        }
        let p0: Vec<u8> = parts.remove(0);
        let username: String = match string_from_utf8(p0) {
            Some(u) => u,
            None => {
                return (false, None);
            },
        };
        let expected: String = AuthToken::generate(secret, username.as_str(), ts);
        proof {
            vstd::utf8::decode_utf8_encode_utf8(
                (spec_token_parts(token_b64.spec_bytes())->Some_0).0,
            );
        }
        let ok: bool = ct_eq(expected.as_str().as_bytes(), token_b64.as_bytes());
        if ok {
            (true, Some(username))
        } else {
            (false, None)
        }
    }

    /// Verify a token against one secret at the current time.
    ///
    /// The time comes from the system clock; the exact contract is on
    /// [`AuthToken::verify_at`].
    pub fn verify(token_b64: &str, secret: &str, max_age_secs: u64) -> (r: (bool, Option<String>))
        ensures
            r.0 ==> r.1 is Some && encode_utf8(r.1->Some_0@) == (spec_token_parts(
                token_b64.spec_bytes(),
            )->Some_0).0,
            !r.0 ==> r.1 is None,
            r.0 ==> exists|now: u64|
                #[trigger] spec_verify(
                    token_b64.spec_bytes(),
                    secret.spec_bytes(),
                    max_age_secs,
                    now,
                ),
    {
        let now: u64 = unix_now();
        Self::verify_at(token_b64, secret, max_age_secs, now)
    }
}

/// User secret for authentication.
#[derive(Clone, Debug)]
pub struct UserSecret {
    pub secret: String,
}

impl UserSecret {
    /// Wrap a secret string.
    pub fn new(secret: &str) -> (r: Self)
        ensures
            r.secret@ == secret@,
    {
        UserSecret { secret: String::from_str(secret) }
    }
}

/// The secret a table of entries holds for a username: the first entry with
/// that name decides.
pub open spec fn spec_lookup(entries: Seq<(String, UserSecret)>, name: Seq<char>) -> Option<
    Seq<char>,
>
    decreases entries.len(),
{
    if entries.len() == 0 {
        None
    } else if entries[0].0@ == name {
        Some(entries[0].1.secret@)
    } else {
        spec_lookup(entries.drop_first(), name)
    }
}

/// A table of user secrets keyed by username.
pub struct UserSecrets {
    entries: Vec<(String, UserSecret)>,
}

impl UserSecrets {
    /// The secret the table holds for a username.
    pub closed spec fn lookup(self, name: Seq<char>) -> Option<Seq<char>> {
        spec_lookup(self.entries@, name)
    }

    /// Create an empty table.
    pub fn new() -> (r: Self)
        ensures
            forall|n: Seq<char>| #[trigger] r.lookup(n) is None,
    {
        UserSecrets { entries: Vec::new() }
    }

    /// Add a user's secret, replacing any earlier entry for the name.
    pub fn insert(&mut self, username: &str, secret: &str)
        ensures
            final (self).lookup(username@) == Some(secret@),
            forall|n: Seq<char>|
                n != username@ ==> #[trigger] final (self).lookup(n) == old(self).lookup(n),
    {
        self.entries.insert(0, (String::from_str(username), UserSecret::new(secret)));
        proof {
            assert(self.entries@.drop_first() =~= old(self).entries@);
        }
    }

    /// Look a username up.
    pub fn get(&self, username: &str) -> (r: Option<&UserSecret>)
        ensures
            match r {
                Some(u) => self.lookup(username@) == Some(u.secret@),
                None => self.lookup(username@) is None,
            },
    {
        let mut i: usize = 0;
        proof {
            assert(self.entries@.skip(0) =~= self.entries@);
        }
        while i < self.entries.len()
            invariant
                0 <= i <= self.entries@.len(),
                spec_lookup(self.entries@, username@) == spec_lookup(
                    self.entries@.skip(i as int),
                    username@,
                ),
            decreases self.entries@.len() - i,
        {
            let hit: bool = str_eq(self.entries[i].0.as_str(), username);
            proof {
                assert(self.entries@.skip(i as int)[0] == self.entries@[i as int]);
                assert(self.entries@.skip(i as int).drop_first() =~= self.entries@.skip(
                    i as int + 1,
                ));
            }
            if hit {
                return Some(&self.entries[i].1);
            }
            i = i + 1;
        }
        proof {
            assert(self.entries@.skip(self.entries@.len() as int) =~= Seq::<(
                String,
                UserSecret,
            )>::empty());
        }
        None
    }
}

/// A token verifies against a table exactly when it carries a fresh
/// timestamp, its username is in the table, and it equals the token
/// generated from that user's secret for its own username and timestamp.
pub open spec fn spec_verify_multi(
    token: Seq<u8>,
    users: UserSecrets,
    max_age: u64,
    now: u64,
) -> bool {
    match spec_token_parts(token) {
        None => false,
        Some((ub, ts)) => {
            &&& spec_fresh(ts, now, max_age)
            &&& valid_utf8(ub)
            &&& users.lookup(decode_utf8(ub)) is Some
            &&& token == spec_token(encode_utf8(users.lookup(decode_utf8(ub))->0), ub, ts)
        },
    }
}

impl AuthToken {
    /// Verify a token against a table of users at a given time.
    pub fn verify_multi_user_at(
        token_b64: &str,
        users: &UserSecrets,
        max_age_secs: u64,
        now: u64,
    ) -> (r: (bool, Option<String>))
        ensures
            r.0 == spec_verify_multi(token_b64.spec_bytes(), *users, max_age_secs, now),
            r.0 ==> r.1 is Some && encode_utf8(r.1->Some_0@) == (spec_token_parts(
                token_b64.spec_bytes(),
            )->Some_0).0,
            !r.0 ==> r.1 is None,
    {
        let decoded: Vec<u8> = match b64_decode(token_b64.as_bytes()) {
            Some(d) => d,
            None => {
                return (false, None);
            },
        };
        let mut parts: Vec<Vec<u8>> = split_bytes(decoded.as_slice(), 58);
        if parts.len() != 3 {
            return (false, None);
        }
        let ts: u64 = match parse_dec_bytes(parts[1].as_slice()) {
            Some(t) => t,
            None => {
                return (false, None);
            },
        };
        if ts > now {
            return (false, None);
        }
        if now - ts > max_age_secs {
            return (false, None);
        }
        let p0: Vec<u8> = parts.remove(0);
        let username: String = match string_from_utf8(p0) {
            Some(u) => u,
            None => {
                return (false, None);
            },
        };
        let user: &UserSecret = match users.get(username.as_str()) {
            Some(u) => u,
            None => {
                return (false, None);
            },
        };
        let expected: String = AuthToken::generate(
            user.secret.as_str(),
            username.as_str(),
            ts,
        );
        proof {
            vstd::utf8::decode_utf8_encode_utf8(
                (spec_token_parts(token_b64.spec_bytes())->Some_0).0,
            );
        }
        let ok: bool = ct_eq(expected.as_str().as_bytes(), token_b64.as_bytes());
        if ok {
            (true, Some(username))
        } else {
            (false, None)
        }
    }

    /// Verify a token against a table of users at the current time.
    ///
    /// The time comes from the system clock; the exact contract is on
    /// [`AuthToken::verify_multi_user_at`].
    pub fn verify_multi_user(token_b64: &str, users: &UserSecrets, max_age_secs: u64) -> (r: (
        bool,
        Option<String>,
    ))
        ensures
            r.0 ==> r.1 is Some && encode_utf8(r.1->Some_0@) == (spec_token_parts(
                token_b64.spec_bytes(),
            )->Some_0).0,
            !r.0 ==> r.1 is None,
            r.0 ==> exists|now: u64|
                #[trigger] spec_verify_multi(token_b64.spec_bytes(), *users, max_age_secs, now),
    {
        let now: u64 = unix_now();
        Self::verify_multi_user_at(token_b64, users, max_age_secs, now)
    }
}

/// The token generated for a colon-free username parses back into that
/// username and its timestamp.
pub proof fn lemma_token_parts(secret: Seq<u8>, username: Seq<char>, ts: u64)
    requires
        forall|i: int| 0 <= i < username.len() ==> (#[trigger] username[i]) as u32 != 58,
    ensures
        spec_token_parts(spec_token(secret, encode_utf8(username), ts)) == Some(
            (encode_utf8(username), ts),
        ),
        valid_utf8(encode_utf8(username)),
        decode_utf8(encode_utf8(username)) == username,
{
    let ub = encode_utf8(username);
    let mac = hmac_sha256_of(secret, spec_auth_msg(ub, ts));
    let mac64 = spec_b64_encode(mac);
    let dec = spec_dec_bytes(ts as nat);
    let inner = spec_inner(secret, ub, ts);
    let token = spec_token(secret, ub, ts);
    lemma_b64_roundtrip(inner);
    lemma_encode_utf8_byte_free(username, 58);
    lemma_dec_bytes_digits(ts as nat);
    lemma_b64_encode_no_colon(mac);
    assert(inner =~= ub + seq![58u8] + (dec + seq![58u8] + mac64));
    lemma_split_step(ub, dec + seq![58u8] + mac64, 58);
    lemma_split_step(dec, mac64, 58);
    lemma_split_whole(mac64, 58);
    assert(spec_split(inner, 58) =~= seq![ub, dec, mac64]);
    lemma_dec_roundtrip(ts);
    vstd::utf8::encode_utf8_valid_utf8(username);
    vstd::utf8::encode_utf8_decode_utf8(username);
}

/// Law: a generated token verifies against the secret it was generated from
/// exactly when its timestamp is fresh at verification time, and it names
/// the username it was generated for.  Usernames hold no colon: the colon
/// separates the token's fields.
pub proof fn lemma_token_roundtrip(
    secret: Seq<u8>,
    username: Seq<char>,
    ts: u64,
    max_age: u64,
    now: u64,
)
    requires
        forall|i: int| 0 <= i < username.len() ==> (#[trigger] username[i]) as u32 != 58,
    ensures
        spec_verify(spec_token(secret, encode_utf8(username), ts), secret, max_age, now)
            == spec_fresh(ts, now, max_age),
{
    lemma_token_parts(secret, username, ts);
}

/// Law: a generated token verifies against a user table exactly when its
/// timestamp is fresh at verification time, provided the table maps the
/// (colon-free) username to the generating secret.
pub proof fn lemma_token_roundtrip_multi(
    users: UserSecrets,
    secret: Seq<char>,
    username: Seq<char>,
    ts: u64,
    max_age: u64,
    now: u64,
)
    requires
        users.lookup(username) == Some(secret),
        forall|i: int| 0 <= i < username.len() ==> (#[trigger] username[i]) as u32 != 58,
    ensures
        spec_verify_multi(
            spec_token(encode_utf8(secret), encode_utf8(username), ts),
            users,
            max_age,
            now,
        ) == spec_fresh(ts, now, max_age),
{
    lemma_token_parts(encode_utf8(secret), username, ts);
}

/// Generate a random 32-character secret; every character is drawn from
/// the 62-character alphanumeric set.
pub fn generate_secret() -> (r: String)
    ensures
        r@.len() == 32,
        forall|i: int|
            0 <= i < r@.len()
                ==> "ABCDEFGHIJKLMNOPQRSTUVWXYZabcdefghijklmnopqrstuvwxyz0123456789"@.contains(
                #[trigger] r@[i],
            ),
{
    let charset: &str = "ABCDEFGHIJKLMNOPQRSTUVWXYZabcdefghijklmnopqrstuvwxyz0123456789";
    proof {
        reveal_strlit("ABCDEFGHIJKLMNOPQRSTUVWXYZabcdefghijklmnopqrstuvwxyz0123456789");
    }
    let mut secret: String = String::new();
    let mut i: usize = 0;
    while i < 32
        invariant
            0 <= i <= 32,
            secret@.len() == i,
            charset@
                == "ABCDEFGHIJKLMNOPQRSTUVWXYZabcdefghijklmnopqrstuvwxyz0123456789"@,
            charset@.len() == 62,
            charset.is_ascii(),
            forall|j: int| 0 <= j < i ==> charset@.contains(#[trigger] secret@[j]),
        decreases 32 - i,
    {
        let idx: usize = random_below(62) as usize;
        let c: &str = charset.substring_ascii(idx, idx + 1);
        proof {
            assert(c@[0] == charset@[idx as int]);
        }
        secret.append(c);
        i = i + 1;
    }
    secret
}

/// Draw a number below a bound.
///
/// Relies on rand's `thread_rng` and `Rng::gen_range`: the draw lies in the
/// half-open range; nothing else is promised, the value is random.
#[verifier::external_body]
fn random_below(bound: u32) -> (r: u32)
    requires
        bound > 0,
    ensures
        r < bound,
{
    rand::Rng::gen_range(&mut rand::thread_rng(), 0..bound)
}

} // verus!
