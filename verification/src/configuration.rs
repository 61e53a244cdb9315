//! Layered-configuration model: the recognized deployment environments, the
//! settings snapshot, and the policy deriving database connection descriptors.

use secrecy::ExposeSecret;
use vstd::prelude::*;
use vstd::string::StrSliceExecFns;
use vstd::string::StringExecFns;

verus! {

/// A secret string: holds secrecy's `Secret<String>`, which suppresses
/// printing of its content and wipes it from memory on drop. Verus refuses a
/// direct declaration of that type for its trait bound, so it stands in a
/// private field here; its content is reached only through the trusted items
/// below.
#[verifier::external_body]
pub struct SecretString {
    inner: secrecy::Secret<String>,
}

/// The character content of a secret string. Nothing is assumed about it
/// beyond what the two trusted items below state.
pub uninterp spec fn secret_chars(s: SecretString) -> Seq<char>;

/// Relies on secrecy::Secret::new: it wraps the given value unchanged.
#[verifier::external_body]
pub fn secret_string_new(s: String) -> (r: SecretString)
    ensures
        secret_chars(r) == s@,
{
    SecretString { inner: secrecy::Secret::new(s) }
}

/// Relies on secrecy::ExposeSecret::expose_secret: it hands back exactly the
/// wrapped value.
#[verifier::external_body]
fn expose_secret_string(s: &SecretString) -> (r: String)
    ensures
        r@ == secret_chars(*s),
{
    s.inner.expose_secret().clone()
}

/// HTTP bind settings for the application itself.
pub struct ApplicationSettings {
    pub host: String,
    pub port: u16,
}

/// Database settings as resolved from layered configuration.
pub struct DatabaseSettings {
    pub username: String,
    pub password: SecretString,
    pub port: u16,
    pub host: String,
    pub database_name: String,
    pub require_ssl: bool,
}

/// The immutable settings snapshot for one process lifetime.
pub struct Settings {
    pub database: DatabaseSettings,
    pub application: ApplicationSettings,
}

/// Transport-security policy for a database connection: either encryption is
/// required outright, or an encrypted connection is attempted with a silent
/// fallback to an unencrypted one.
#[derive(Clone, Copy, PartialEq, Eq, Structural, Debug)]
pub enum SslMode {
    Require,
    PreferEncrypted,
}

/// The transport-security mode the settings call for.
pub open spec fn spec_ssl_mode(require_ssl: bool) -> SslMode {
    if require_ssl {
        SslMode::Require
    } else {
        SslMode::PreferEncrypted
    }
}

/// Everything needed to open a database connection. `database_name` is
/// `None` in the administrative variant, which targets the server without
/// selecting a database.
pub struct ConnectionDescriptor {
    pub host: String,
    pub port: u16,
    pub username: String,
    pub password: String,
    pub database_name: Option<String>,
    pub ssl_mode: SslMode,
}

impl DatabaseSettings {
    /// Administrative descriptor: targets the server without selecting a
    /// database. Encryption is required exactly when `require_ssl` is set;
    /// otherwise it is attempted with fallback to an unencrypted channel.
    pub fn without_db(&self) -> (r: ConnectionDescriptor)
        ensures
            r.host@ == self.host@,
            r.port == self.port,
            r.username@ == self.username@,
            r.password@ == secret_chars(self.password),
            r.database_name is None,
            r.ssl_mode == spec_ssl_mode(self.require_ssl),
    {
        let ssl_mode = if self.require_ssl {
            SslMode::Require
        } else {
            // Try an encrypted connection, fall back to unencrypted if the
            // server does not support it.
            SslMode::PreferEncrypted
        };
        ConnectionDescriptor {
            host: self.host.clone(),
            port: self.port,
            username: self.username.clone(),
            password: expose_secret_string(&self.password),
            database_name: None,
            ssl_mode,
        }
    }

    /// Operational descriptor: identical to the administrative one except
    /// that it selects the target database.
    pub fn with_db(&self) -> (r: ConnectionDescriptor)
        ensures
            r.host@ == self.host@,
            r.port == self.port,
            r.username@ == self.username@,
            r.password@ == secret_chars(self.password),
            r.database_name matches Some(n) && n@ == self.database_name@,
            r.ssl_mode == spec_ssl_mode(self.require_ssl),
    {
        let mut descriptor = self.without_db();
        descriptor.database_name = Some(self.database_name.clone());
        descriptor
    }
}

/// The deployment environments the service recognizes.
#[derive(Clone, Copy, PartialEq, Eq, Structural, Debug)]
pub enum Environment {
    Local,
    Production,
}

/// The canonical (lower-case) name of an environment.
pub open spec fn spec_environment_name(env: Environment) -> Seq<char> {
    match env {
        Environment::Local => "local"@,
        Environment::Production => "production"@,
    }
}

impl Environment {
    /// The canonical name, as used for overlay file names.
    pub fn as_str(&self) -> (r: &'static str)
        ensures
            r@ == spec_environment_name(*self),
    {
        match self {
            Environment::Local => "local",
            Environment::Production => "production",
        }
    }
}

/// Two characters match when they are the same code point or differ only in
/// ASCII case.
pub open spec fn chars_match_ascii_case(a: char, b: char) -> bool {
    ||| a as u32 == b as u32
    ||| (65 <= a as u32 <= 90 && a as u32 + 32 == b as u32)
    ||| (65 <= b as u32 <= 90 && b as u32 + 32 == a as u32)
}

/// Character-wise equality up to ASCII case.
pub open spec fn seq_eq_ignore_ascii_case(s: Seq<char>, t: Seq<char>) -> bool {
    s.len() == t.len() && forall|i: int|
        0 <= i < s.len() ==> #[trigger] chars_match_ascii_case(s[i], t[i])
}

fn str_eq_ignore_ascii_case(s: &str, t: &str) -> (r: bool)
    ensures
        r == seq_eq_ignore_ascii_case(s@, t@),
{
    let n = s.unicode_len();
    if n != t.unicode_len() {
        return false;
    }
    let mut i: usize = 0;
    while i < n
        invariant
            i <= n,
            n == s@.len(),
            n == t@.len(),
            forall|j: int| 0 <= j < i ==> #[trigger] chars_match_ascii_case(s@[j], t@[j]),
        decreases n - i,
    {
        let a = s.get_char(i) as u32;
        let b = t.get_char(i) as u32;
        let same = a == b || (65 <= a && a <= 90 && a + 32 == b) || (65 <= b && b <= 90 && b + 32
            == a);
        if !same {
            assert(!chars_match_ascii_case(s@[i as int], t@[i as int]));
            return false;
        }
        i = i + 1;
    }
    true
}

/// What parsing an environment name yields: the recognized variants are
/// matched up to ASCII case; anything else is rejected with a message that
/// names the offending value.
pub open spec fn spec_parse_environment(s: Seq<char>) -> Result<Environment, Seq<char>> {
    if seq_eq_ignore_ascii_case(s, "local"@) {
        Ok(Environment::Local)
    } else if seq_eq_ignore_ascii_case(s, "production"@) {
        Ok(Environment::Production)
    } else {
        Err(s + " is not supported environment. Use 'local' or 'production'."@)
    }
}

impl Environment {
    /// Parses an environment name, accepting any ASCII casing of the
    /// recognized names and rejecting everything else.
    pub fn try_from(s: String) -> (r: Result<Environment, String>)
        ensures
            match r {
                Ok(env) => spec_parse_environment(s@) == Ok::<Environment, Seq<char>>(env),
                Err(msg) => spec_parse_environment(s@) == Err::<Environment, Seq<char>>(msg@),
            },
    {
        if str_eq_ignore_ascii_case(s.as_str(), "local") {
            Ok(Environment::Local)
        } else if str_eq_ignore_ascii_case(s.as_str(), "production") {
            Ok(Environment::Production)
        } else {
            Err(s.concat(" is not supported environment. Use 'local' or 'production'."))
        }
    }
}

/// Resolution of the environment selector: an unset variable falls back to
/// the local environment; a set one is parsed.
pub open spec fn spec_resolve_environment(var: Option<Seq<char>>) -> Result<
    Environment,
    Seq<char>,
> {
    match var {
        None => Ok(Environment::Local),
        Some(s) => spec_parse_environment(s),
    }
}

/// Determines the active environment from the value of the selector
/// variable, if any. Unrecognized values fail fast, before any further
/// resolution work.
pub fn resolve_environment(var: Option<String>) -> (r: Result<Environment, String>)
    ensures
        match r {
            Ok(env) => spec_resolve_environment(var.deep_view()) == Ok::<
                Environment,
                Seq<char>,
            >(env),
            Err(msg) => spec_resolve_environment(var.deep_view()) == Err::<
                Environment,
                Seq<char>,
            >(msg@),
        },
{
    match var {
        None => Ok(Environment::Local),
        Some(s) => Environment::try_from(s),
    }
}

/// Law: with the environment selector unset, resolution behaves exactly as
/// with the selector set to "local".
pub proof fn lemma_unset_selector_defaults_to_local()
    ensures
        spec_resolve_environment(None) == spec_resolve_environment(Some("local"@)),
{
    assert(seq_eq_ignore_ascii_case("local"@, "local"@));
}

/// The name of the overlay configuration file for an environment.
pub open spec fn spec_environment_filename(env: Environment) -> Seq<char> {
    spec_environment_name(env) + ".yml"@
}

/// The overlay file to load for the given environment.
pub fn environment_filename(env: &Environment) -> (r: &'static str)
    ensures
        r@ == spec_environment_filename(*env),
{
    match env {
        Environment::Local => {
            proof {
                reveal_strlit("local");
                reveal_strlit(".yml");
                reveal_strlit("local.yml");
                assert("local.yml"@ =~= "local"@ + ".yml"@);
            }
            "local.yml"
        },
        Environment::Production => {
            proof {
                reveal_strlit("production");
                reveal_strlit(".yml");
                reveal_strlit("production.yml");
                assert("production.yml"@ =~= "production"@ + ".yml"@);
            }
            "production.yml"
        },
    }
}

/// A decimal digit.
pub open spec fn is_ascii_digit_char(c: char) -> bool {
    48 <= c as u32 <= 57
}

/// All characters are decimal digits.
pub open spec fn all_digits(s: Seq<char>) -> bool {
    forall|i: int| 0 <= i < s.len() ==> is_ascii_digit_char(#[trigger] s[i])
}

/// The numeric value of a decimal digit string.
pub open spec fn decimal_value(s: Seq<char>) -> int
    decreases s.len(),
{
    if s.len() == 0 {
        0
    } else {
        decimal_value(s.drop_last()) * 10 + (s.last() as u32 - 48)
    }
}

proof fn lemma_decimal_value_nonneg(s: Seq<char>)
    requires
        all_digits(s),
    ensures
        decimal_value(s) >= 0,
    decreases s.len(),
{
    if s.len() > 0 {
        assert(all_digits(s.drop_last()));
        lemma_decimal_value_nonneg(s.drop_last());
    }
}

proof fn lemma_decimal_value_monotonic(s: Seq<char>, k: int)
    requires
        all_digits(s),
        0 <= k <= s.len(),
    ensures
        decimal_value(s.take(k)) <= decimal_value(s),
    decreases s.len() - k,
{
    if k < s.len() {
        let t = s.take(k + 1);
        assert(t.drop_last() =~= s.take(k));
        assert(all_digits(t));
        lemma_decimal_value_nonneg(s.take(k));
        assert(decimal_value(t) == decimal_value(s.take(k)) * 10 + (t.last() as u32 - 48));
        lemma_decimal_value_monotonic(s, k + 1);
    } else {
        assert(s.take(k) =~= s);
    }
}

/// Coerces a port supplied as a string in a configuration source: the value
/// of a non-empty, all-digit string when it fits a port number, and nothing
/// otherwise.
pub fn parse_port(s: &str) -> (r: Option<u16>)
    ensures
        match r {
            Some(v) => s@.len() > 0 && all_digits(s@) && decimal_value(s@) == v as int,
            None => s@.len() == 0 || !all_digits(s@) || decimal_value(s@) > u16::MAX,
        },
{
    let n = s.unicode_len();
    if n == 0 {
        return None;
    }
    let mut i: usize = 0;
    let mut acc: u32 = 0;
    while i < n
        invariant
            0 < n == s@.len(),
            i <= n,
            all_digits(s@.take(i as int)),
            acc == decimal_value(s@.take(i as int)),
            acc <= 65535,
        decreases n - i,
    {
        let c = s.get_char(i) as u32;
        if c < 48 || c > 57 {
            assert(!is_ascii_digit_char(s@[i as int]));
            return None;
        }
        let next: u32 = acc * 10 + (c - 48);
        proof {
            assert(s@.take(i as int + 1).drop_last() =~= s@.take(i as int));
            assert(s@.take(i as int + 1).last() == s@[i as int]);
            assert(all_digits(s@.take(i as int + 1)));
        }
        if next > 65535 {
            proof {
                if all_digits(s@) {
                    lemma_decimal_value_monotonic(s@, i as int + 1);
                }
            }
            return None;
        }
        acc = next;
        i = i + 1;
    }
    proof {
        assert(s@.take(n as int) =~= s@);
    }
    Some(acc as u16)
}

} // verus!
