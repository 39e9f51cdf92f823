//! Process configuration: defaults, overrides taken from the environment
//! as plain strings, and the checks made before the loop starts.
use vstd::prelude::*;
use vstd::string::*;
use crate::format::DEFAULT_PREVIEW_LEN;

verus! {

pub const DEFAULT_IMAP_PORT: usize = 993;

pub const DEFAULT_CHECK_INTERVAL: usize = 300;

pub const DEFAULT_OPENCLAW_PORT: usize = 18789;

/// Settings fixed for the lifetime of the process.
#[derive(Clone, Debug)]
pub struct Config {
    pub mailcow_imap_host: String,
    pub mailcow_imap_port: usize,
    pub mailcow_username: String,
    pub mailcow_password: String,
    pub openclaw_gateway: String,
    pub openclaw_port: usize,
    /// Seconds between cycles; always above zero.
    pub check_interval: usize,
    /// Longest body preview, in characters.
    pub preview_len: usize,
}

impl Default for Config {
    fn default() -> (r: Config)
        ensures
            r.mailcow_imap_host@ == "localhost"@,
            r.mailcow_imap_port == DEFAULT_IMAP_PORT,
            r.mailcow_username@ == Seq::<char>::empty(),
            r.mailcow_password@ == Seq::<char>::empty(),
            r.openclaw_gateway@ == "localhost"@,
            r.openclaw_port == DEFAULT_OPENCLAW_PORT,
            r.check_interval == DEFAULT_CHECK_INTERVAL,
            r.preview_len == DEFAULT_PREVIEW_LEN,
    {
        Config {
            mailcow_imap_host: String::from_str("localhost"),
            mailcow_imap_port: DEFAULT_IMAP_PORT,
            mailcow_username: String::new(),
            mailcow_password: String::new(),
            openclaw_gateway: String::from_str("localhost"),
            openclaw_port: DEFAULT_OPENCLAW_PORT,
            check_interval: DEFAULT_CHECK_INTERVAL,
            preview_len: DEFAULT_PREVIEW_LEN,
        }
    }
}

pub open spec fn is_digit(c: char) -> bool {
    '0' <= c && c <= '9'
}

/// The number written by the decimal digits `d`.
pub open spec fn digits_value(d: Seq<char>) -> int
    decreases d.len(),
{
    if d.len() == 0 {
        0
    } else {
        digits_value(d.drop_last()) * 10 + (d.last() as int - '0' as int)
    }
}

/// The digits of `s` after an optional leading `+`.
pub open spec fn unsigned_digits(s: Seq<char>) -> Seq<char> {
    if s.len() > 0 && s[0] == '+' {
        s.drop_first()
    } else {
        s
    }
}

/// The unsigned integer that `s` spells in decimal: an optional `+`, then
/// one or more digits, of a value that fits in `usize`.
pub open spec fn parsed_usize(s: Seq<char>) -> Option<usize> {
    let d = unsigned_digits(s);
    if d.len() > 0 && (forall|i: int| 0 <= i < d.len() ==> is_digit(#[trigger] d[i]))
        && digits_value(d) <= usize::MAX {
        Some(digits_value(d) as usize)
    } else {
        None
    }
}

proof fn lemma_digits_value_nonneg(d: Seq<char>)
    requires
        forall|i: int| 0 <= i < d.len() ==> is_digit(#[trigger] d[i]),
    ensures
        digits_value(d) >= 0,
    decreases d.len(),
{
    if d.len() > 0 {
        lemma_digits_value_nonneg(d.drop_last());
    }
}

/// Reads an unsigned decimal number, as `usize::from_str` does.
pub fn parse_usize(s: &str) -> (r: Option<usize>)
    ensures
        r == parsed_usize(s@),
{
    let n = s.unicode_len();
    let mut i: usize = 0;
    if n > 0 && s.get_char(0) == '+' {
        i = 1;
    }
    let ghost d = unsigned_digits(s@);
    assert(d =~= s@.subrange(i as int, n as int));
    if i == n {
        return None;
    }
    let start = i;
    let mut value: usize = 0;
    let mut overflow = false;
    while i < n
        invariant
            start <= i <= n,
            n == s@.len(),
            d == s@.subrange(start as int, n as int),
            d == unsigned_digits(s@),
            forall|k: int| 0 <= k < i - start ==> is_digit(#[trigger] d[k]),
            !overflow ==> value == digits_value(d.take(i - start)),
            overflow ==> digits_value(d.take(i - start)) > usize::MAX,
        decreases n - i,
    {
        let c = s.get_char(i);
        if !('0' <= c && c <= '9') {
            assert(d[i - start] == s@[i as int]);
            assert(!is_digit(d[i - start]));
            return None;
        }
        let ghost pre = d.take(i - start);
        let ghost next = d.take(i - start + 1);
        assert(next.drop_last() =~= pre);
        assert(next.last() == c);
        proof {
            lemma_digits_value_nonneg(pre);
        }
        let digit = (c as u32 - '0' as u32) as usize;
        if !overflow {
            if value > (usize::MAX - digit) / 10 {
                overflow = true;
                assert(digits_value(next) > usize::MAX) by (nonlinear_arith)
                    requires
                        digits_value(next) == value * 10 + digit,
                        value > (usize::MAX - digit) / 10,
                        digit <= 9,
                ;
            } else {
                assert(value * 10 + digit <= usize::MAX) by (nonlinear_arith)
                    requires
                        value <= (usize::MAX - digit) / 10,
                        digit <= 9,
                ;
                value = value * 10 + digit;
            }
        } else {
            assert(digits_value(next) > usize::MAX) by (nonlinear_arith)
                requires
                    digits_value(next) == digits_value(pre) * 10 + digit,
                    digits_value(pre) > usize::MAX,
                    digit <= 9,
            ;
        }
        i = i + 1;
    }
    assert(d.take(n - start) =~= d);
    if overflow {
        None
    } else {
        Some(value)
    }
}

/// `s` read as a number, or `default` when it does not read as one.
pub open spec fn number_or(s: Seq<char>, default: usize) -> usize {
    match parsed_usize(s) {
        Some(v) => v,
        None => default,
    }
}

/// `s` read as a positive number, or `default` when it does not read as one.
pub open spec fn positive_or(s: Seq<char>, default: usize) -> usize {
    match parsed_usize(s) {
        Some(v) => if v > 0 {
            v
        } else {
            default
        },
        None => default,
    }
}

/// Values found in the environment, each absent when its variable is unset.
pub struct EnvOverrides {
    pub imap_host: Option<String>,
    pub imap_port: Option<String>,
    pub username: Option<String>,
    pub password: Option<String>,
    pub gateway: Option<String>,
    pub gateway_port: Option<String>,
    pub check_interval: Option<String>,
}

/// The text of a variable, or `default` when it is unset.
pub open spec fn text_or(v: Option<String>, default: Seq<char>) -> Seq<char> {
    match v {
        Some(s) => s@,
        None => default,
    }
}

/// A port or count from a variable: the default when unset or unreadable.
pub open spec fn number_var(v: Option<String>, default: usize) -> usize {
    match v {
        Some(s) => number_or(s@, default),
        None => default,
    }
}

/// The interval from a variable: the default when unset, unreadable or zero.
pub open spec fn interval_var(v: Option<String>, default: usize) -> usize {
    match v {
        Some(s) => positive_or(s@, default),
        None => default,
    }
}

fn text_override(v: Option<String>, default: String) -> (r: String)
    ensures
        r@ == text_or(v, default@),
{
    match v {
        Some(s) => s,
        None => default,
    }
}

fn number_override(v: &Option<String>, default: usize) -> (r: usize)
    ensures
        r == number_var(*v, default),
{
    match v {
        Some(s) => match parse_usize(s.as_str()) {
            Some(n) => n,
            None => default,
        },
        None => default,
    }
}

/// The configuration: defaults, each replaced by its variable where set.
pub fn load_config_from(env: EnvOverrides) -> (r: Config)
    ensures
        r.mailcow_imap_host@ == text_or(env.imap_host, "localhost"@),
        r.mailcow_imap_port == number_var(env.imap_port, DEFAULT_IMAP_PORT),
        r.mailcow_username@ == text_or(env.username, Seq::empty()),
        r.mailcow_password@ == text_or(env.password, Seq::empty()),
        r.openclaw_gateway@ == text_or(env.gateway, "localhost"@),
        r.openclaw_port == number_var(env.gateway_port, DEFAULT_OPENCLAW_PORT),
        r.check_interval == interval_var(env.check_interval, DEFAULT_CHECK_INTERVAL),
        r.check_interval > 0,
        r.preview_len == DEFAULT_PREVIEW_LEN,
{
    let base = Config::default();
    let interval = match &env.check_interval {
        Some(s) => match parse_usize(s.as_str()) {
            Some(n) => if n > 0 {
                n
            } else {
                DEFAULT_CHECK_INTERVAL
            },
            None => DEFAULT_CHECK_INTERVAL,
        },
        None => DEFAULT_CHECK_INTERVAL,
    };
    let imap_port = number_override(&env.imap_port, DEFAULT_IMAP_PORT);
    let openclaw_port = number_override(&env.gateway_port, DEFAULT_OPENCLAW_PORT);
    Config {
        mailcow_imap_host: text_override(env.imap_host, base.mailcow_imap_host),
        mailcow_imap_port: imap_port,
        mailcow_username: text_override(env.username, base.mailcow_username),
        mailcow_password: text_override(env.password, base.mailcow_password),
        openclaw_gateway: text_override(env.gateway, base.openclaw_gateway),
        openclaw_port,
        check_interval: interval,
        preview_len: base.preview_len,
    }
}

/// How the password shows in a printed configuration: whether it is set,
/// never its text.
pub fn password_status(config: &Config) -> (r: &'static str)
    ensures
        config.mailcow_password@.len() > 0 ==> r@ == "[SET]"@,
        config.mailcow_password@.len() == 0 ==> r@ == "[NOT SET]"@,
{
    if !config.mailcow_password.as_str().is_empty() {
        "[SET]"
    } else {
        "[NOT SET]"
    }
}

/// A configuration the engine cannot run with.
#[derive(Clone, Copy, Debug, PartialEq, Eq, Structural)]
pub enum ConfigError {
    MissingPassword,
}

/// Checks made once before the first cycle.
pub fn validate(config: &Config) -> (r: Result<(), ConfigError>)
    ensures
        r is Err <==> config.mailcow_password@.len() == 0,
        r matches Err(e) ==> e == ConfigError::MissingPassword,
{
    if config.mailcow_password.as_str().is_empty() {
        Err(ConfigError::MissingPassword)
    } else {
        Ok(())
    }
}

} // verus!
