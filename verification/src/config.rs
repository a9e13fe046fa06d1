//! Server configuration: the values read from the environment, their
//! defaults, and a printable form that hides the secrets.
use vstd::prelude::*;
use crate::validation::opt_view;

verus! {

/// The server's configuration.
pub struct Config {
    pub database_url: String,
    pub openrouter_api_key: String,
    pub openrouter_model: String,
    pub host: String,
    pub port: u16,
    pub frontend_origin: String,
    pub api_auth_token: Option<String>,
}

/// The mathematical value of a [`Config`].
pub struct ConfigView {
    pub database_url: Seq<char>,
    pub openrouter_api_key: Seq<char>,
    pub openrouter_model: Seq<char>,
    pub host: Seq<char>,
    pub port: u16,
    pub frontend_origin: Seq<char>,
    pub api_auth_token: Option<Seq<char>>,
}

impl View for Config {
    type V = ConfigView;

    open spec fn view(&self) -> ConfigView {
        ConfigView {
            database_url: self.database_url@,
            openrouter_api_key: self.openrouter_api_key@,
            openrouter_model: self.openrouter_model@,
            host: self.host@,
            port: self.port,
            frontend_origin: self.frontend_origin@,
            api_auth_token: opt_view(self.api_auth_token),
        }
    }
}

// ---------------------------------------------------------------------------
// Port numbers in decimal
// ---------------------------------------------------------------------------

/// The decimal digit character for `d < 10`.
pub open spec fn digit_char(d: nat) -> char {
    if d == 0 { '0' }
    else if d == 1 { '1' }
    else if d == 2 { '2' }
    else if d == 3 { '3' }
    else if d == 4 { '4' }
    else if d == 5 { '5' }
    else if d == 6 { '6' }
    else if d == 7 { '7' }
    else if d == 8 { '8' }
    else { '9' }
}

/// The value of a decimal digit character.
pub open spec fn digit_value(c: char) -> nat {
    ((c as u32) - ('0' as u32)) as nat
}

/// Every character of `s` is a decimal digit.
pub open spec fn all_digits(s: Seq<char>) -> bool {
    forall|i: int| 0 <= i < s.len() ==> '0' <= #[trigger] s[i] && s[i] <= '9'
}

/// The number that the decimal digits `s` write.
pub open spec fn digits_value(s: Seq<char>) -> nat
    decreases s.len(),
{
    if s.len() == 0 {
        0
    } else {
        digits_value(s.drop_last()) * 10 + digit_value(s.last())
    }
}

/// `n` written in decimal, without leading zeros.
pub open spec fn decimal(n: nat) -> Seq<char>
    decreases n,
{
    if n < 10 {
        seq![digit_char(n)]
    } else {
        decimal(n / 10).push(digit_char(n % 10))
    }
}

/// What `str::parse::<u16>` accepts: an optional `+`, then one or more
/// decimal digits whose value is at most 65535.
pub open spec fn parsed_port(s: Seq<char>) -> Option<u16> {
    let d = if s.len() > 0 && s[0] == '+' { s.drop_first() } else { s };
    if d.len() > 0 && all_digits(d) && digits_value(d) <= 65535 {
        Some(digits_value(d) as u16)
    } else {
        None
    }
}

proof fn lemma_digit(d: nat)
    requires
        d < 10,
    ensures
        '0' <= digit_char(d) <= '9',
        digit_value(digit_char(d)) == d,
{
}

/// Appending digits never lowers the value.
proof fn lemma_digits_grow(s: Seq<char>, k: int)
    requires
        0 <= k <= s.len(),
        all_digits(s),
    ensures
        digits_value(s.take(k)) <= digits_value(s),
    decreases s.len() - k,
{
    if k < s.len() {
        lemma_digits_grow(s, k + 1);
        assert(s.take(k + 1).drop_last() =~= s.take(k));
        assert(s.take(k + 1).last() == s[k]);
    } else {
        assert(s.take(k) =~= s);
    }
}

/// Decimal writing is read back exactly.
pub proof fn lemma_decimal(n: nat)
    ensures
        decimal(n).len() > 0,
        all_digits(decimal(n)),
        digits_value(decimal(n)) == n,
        decimal(n)[0] != '+',
    decreases n,
{
    if n < 10 {
        lemma_digit(n);
        let s = decimal(n);
        assert(s.drop_last() =~= Seq::<char>::empty());
        assert(digits_value(s.drop_last()) == 0);
        assert(s.last() == digit_char(n));
        assert(digits_value(s) == digits_value(s.drop_last()) * 10 + digit_value(s.last()));
    } else {
        lemma_decimal(n / 10);
        lemma_digit(n % 10);
        let s = decimal(n);
        assert(s.drop_last() =~= decimal(n / 10));
        assert(s.last() == digit_char(n % 10));
        assert(s[0] == decimal(n / 10)[0]);
        assert(digits_value(s) == digits_value(decimal(n / 10)) * 10 + digit_value(s.last()));
        assert((n / 10) * 10 + n % 10 == n);
    }
}

/// The value of the decimal digits `cs[start..]`, when they are all digits
/// and the value is at most 65535.
fn digits_number(cs: &Vec<char>, start: usize) -> (r: Option<u16>)
    requires
        start <= cs.len(),
    ensures
        r == (if all_digits(cs@.skip(start as int)) && digits_value(cs@.skip(start as int))
            <= 65535 {
            Some(digits_value(cs@.skip(start as int)) as u16)
        } else {
            None
        }),
{
    let ghost d = cs@.skip(start as int);
    let mut value: u32 = 0;
    let mut i = start;
    while i < cs.len()
        invariant
            start <= i <= cs.len(),
            d == cs@.skip(start as int),
            all_digits(d.take(i - start)),
            value == digits_value(d.take(i - start)),
            value <= 65535,
        decreases cs.len() - i,
    {
        let c = cs[i];
        let ghost k = i - start;
        proof {
            assert(d.take(k + 1).drop_last() =~= d.take(k));
            assert(d[k] == c);
            assert(d.take(k + 1).last() == c);
        }
        if c < '0' || c > '9' {
            assert(!all_digits(d));
            return None;
        }
        let v = (c as u32) - ('0' as u32);
        value = value * 10 + v;
        assert(all_digits(d.take(k + 1)));
        if value > 65535 {
            proof {
                if all_digits(d) {
                    lemma_digits_grow(d, k + 1);
                }
            }
            return None;
        }
        i = i + 1;
    }
    assert(d.take(i - start) =~= d);
    Some(value as u16)
}

/// Reads a port number as `str::parse::<u16>` does.
pub fn parse_port(s: &str) -> (r: Option<u16>)
    ensures
        r == parsed_port(s@),
{
    let cs = crate::text::chars_of(s);
    let start: usize = if cs.len() > 0 && cs[0] == '+' { 1 } else { 0 };
    assert(cs@.skip(start as int) =~= (if s@.len() > 0 && s@[0] == '+' {
        s@.drop_first()
    } else {
        s@
    }));
    if start >= cs.len() {
        return None;
    }
    digits_number(&cs, start)
}

/// `n` written in decimal.
pub fn port_decimal(n: u16) -> (r: String)
    ensures
        r@ == decimal(n as nat),
    decreases n,
{
    let d = n % 10;
    let c = if d == 0 { '0' } else if d == 1 { '1' } else if d == 2 { '2' } else if d == 3 { '3' }
        else if d == 4 { '4' } else if d == 5 { '5' } else if d == 6 { '6' } else if d == 7 { '7' }
        else if d == 8 { '8' } else { '9' };
    if n < 10 {
        let mut r = String::new();
        r.push(c);
        assert(r@ =~= seq![c]);
        r
    } else {
        let mut r = port_decimal(n / 10);
        r.push(c);
        r
    }
}

/// Reading back a port number written in decimal gives the number.
pub proof fn law_port_round_trip(n: u16)
    ensures
        parsed_port(decimal(n as nat)) == Some(n),
{
    lemma_decimal(n as nat);
}

// ---------------------------------------------------------------------------
// Reading the environment
// ---------------------------------------------------------------------------

/// The model used when none is configured.
pub open spec fn default_model() -> Seq<char> {
    "nvidia/nemotron-3-super-120b-a12b:free"@
}

/// `value` if present, `default` otherwise.
pub open spec fn or_default(value: Option<Seq<char>>, default: Seq<char>) -> Seq<char> {
    match value {
        Some(v) => v,
        None => default,
    }
}

/// The configuration that the given environment values give.
pub open spec fn configured(
    api_key: Option<Seq<char>>,
    model: Option<Seq<char>>,
    database_url: Option<Seq<char>>,
    host: Option<Seq<char>>,
    port: Option<Seq<char>>,
    frontend_origin: Option<Seq<char>>,
    api_auth_token: Option<Seq<char>>,
) -> ConfigView {
    ConfigView {
        database_url: or_default(database_url, "sqlite:./gpt-copy-v9.db"@),
        openrouter_api_key: or_default(api_key, Seq::<char>::empty()),
        openrouter_model: or_default(model, default_model()),
        host: or_default(host, "0.0.0.0"@),
        port: match port {
            Some(p) => match parsed_port(p) {
                Some(n) => n,
                None => 3001,
            },
            None => 3001,
        },
        frontend_origin: or_default(frontend_origin, "http://localhost:3000"@),
        api_auth_token: match api_auth_token {
            Some(t) => if t.len() > 0 {
                Some(t)
            } else {
                None
            },
            None => None,
        },
    }
}

fn or_default_string(value: Option<String>, default: &str) -> (r: String)
    ensures
        r@ == or_default(opt_view(value), default@),
{
    match value {
        Some(v) => v,
        None => String::from_str(default),
    }
}

impl Config {
    /// The configuration from the values of the variables `OPENROUTER_API_KEY`,
    /// `OPENROUTER_MODEL`, `DATABASE_URL`, `HOST`, `PORT`, `FRONTEND_ORIGIN`
    /// and `API_AUTH_TOKEN` (`None` where a variable is unset): each falls
    /// back to its default, a port that does not parse falls back to 3001,
    /// and an empty token means no token.
    pub fn from_env_values(
        api_key: Option<String>,
        model: Option<String>,
        database_url: Option<String>,
        host: Option<String>,
        port: Option<String>,
        frontend_origin: Option<String>,
        api_auth_token: Option<String>,
    ) -> (c: Config)
        ensures
            c@ == configured(
                opt_view(api_key),
                opt_view(model),
                opt_view(database_url),
                opt_view(host),
                opt_view(port),
                opt_view(frontend_origin),
                opt_view(api_auth_token),
            ),
    {
        let port_number = match &port {
            Some(p) => match parse_port(p.as_str()) {
                Some(n) => n,
                None => 3001,
            },
            None => 3001,
        };
        let token = match api_auth_token {
            Some(t) => if t.as_str().is_empty() {
                None
            } else {
                Some(t)
            },
            None => None,
        };
        let c = Config {
            database_url: or_default_string(database_url, "sqlite:./gpt-copy-v9.db"),
            openrouter_api_key: or_default_string(api_key, ""),
            openrouter_model: or_default_string(model, "nvidia/nemotron-3-super-120b-a12b:free"),
            host: or_default_string(host, "0.0.0.0"),
            port: port_number,
            frontend_origin: or_default_string(frontend_origin, "http://localhost:3000"),
            api_auth_token: token,
        };
        proof {
            reveal_strlit("");
            assert(""@ =~= Seq::<char>::empty());
            assert(c@.port == configured(
                opt_view(api_key),
                opt_view(model),
                opt_view(database_url),
                opt_view(host),
                opt_view(port),
                opt_view(frontend_origin),
                opt_view(api_auth_token),
            ).port);
            assert(c@.api_auth_token == configured(
                opt_view(api_key),
                opt_view(model),
                opt_view(database_url),
                opt_view(host),
                opt_view(port),
                opt_view(frontend_origin),
                opt_view(api_auth_token),
            ).api_auth_token);
        }
        c
    }

    /// The configuration for tests: an in-memory database, a placeholder key,
    /// no API token.
    pub fn for_test() -> (c: Config)
        ensures
            c@ == (ConfigView {
                database_url: "sqlite::memory:"@,
                openrouter_api_key: "test-key"@,
                openrouter_model: default_model(),
                host: "127.0.0.1"@,
                port: 3001,
                frontend_origin: "http://localhost:3000"@,
                api_auth_token: None,
            }),
    {
        Config {
            database_url: String::from_str("sqlite::memory:"),
            openrouter_api_key: String::from_str("test-key"),
            openrouter_model: String::from_str("nvidia/nemotron-3-super-120b-a12b:free"),
            host: String::from_str("127.0.0.1"),
            port: 3001,
            frontend_origin: String::from_str("http://localhost:3000"),
            api_auth_token: None,
        }
    }
}

// ---------------------------------------------------------------------------
// The printable form
// ---------------------------------------------------------------------------

/// What `{:?}` writes for a string (`<str as Debug>::fmt`: quoted and escaped).
pub uninterp spec fn debug_quoted(s: Seq<char>) -> Seq<char>;

/// `format!("{:?}", s)`: the string quoted and escaped as `Debug` writes it,
/// named by `debug_quoted`, which nothing here defines.
#[verifier::external_body]
fn debug_quote(s: &str) -> (r: String)
    ensures
        r@ == debug_quoted(s@),
{
    format!("{:?}", s)
}

/// The printable form of a configuration: every field but the two secrets,
/// which show as `[REDACTED]` (the token only when there is one).
pub open spec fn config_debug(c: ConfigView) -> Seq<char> {
    "Config { database_url: "@ + debug_quoted(c.database_url) + ", openrouter_api_key: \"[REDACTED]\", openrouter_model: "@
        + debug_quoted(c.openrouter_model) + ", host: "@ + debug_quoted(c.host) + ", port: "@
        + decimal(c.port as nat) + ", frontend_origin: "@ + debug_quoted(c.frontend_origin)
        + ", api_auth_token: "@ + match c.api_auth_token {
        Some(_) => "Some(\"[REDACTED]\")"@,
        None => "None"@,
    } + " }"@
}

impl Config {
    /// The printable form of the configuration, with the API key and the
    /// API token hidden.
    pub fn debug_string(&self) -> (r: String)
        ensures
            r@ == config_debug(self@),
    {
        let mut r = String::from_str("Config { database_url: ");
        r.append(debug_quote(self.database_url.as_str()).as_str());
        r.append(", openrouter_api_key: \"[REDACTED]\", openrouter_model: ");
        r.append(debug_quote(self.openrouter_model.as_str()).as_str());
        r.append(", host: ");
        r.append(debug_quote(self.host.as_str()).as_str());
        r.append(", port: ");
        r.append(port_decimal(self.port).as_str());
        r.append(", frontend_origin: ");
        r.append(debug_quote(self.frontend_origin.as_str()).as_str());
        r.append(", api_auth_token: ");
        match &self.api_auth_token {
            Some(_) => r.append("Some(\"[REDACTED]\")"),
            None => r.append("None"),
        }
        r.append(" }");
        r
    }
}

/// The printable form does not depend on the secrets: two configurations
/// that differ only in the API key and in the value of the API token print
/// the same.
pub proof fn law_debug_hides_secrets(a: ConfigView, b: ConfigView)
    requires
        a.database_url == b.database_url,
        a.openrouter_model == b.openrouter_model,
        a.host == b.host,
        a.port == b.port,
        a.frontend_origin == b.frontend_origin,
        a.api_auth_token is Some <==> b.api_auth_token is Some,
    ensures
        config_debug(a) == config_debug(b),
{
}

} // verus!
