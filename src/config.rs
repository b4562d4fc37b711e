//! Startup settings: the listening port, the sustained request rate per client and
//! the secret key. Each is read once, before any connection is accepted.

use vstd::prelude::*;
use crate::text::{digits_value, is_decimal_digit};

verus! {

/// Port used when none is configured.
pub const DEFAULT_PORT: u16 = 3000;

/// Requests per second per client used when no rate is configured.
pub const DEFAULT_REQ_LIMIT_PER_SEC: u32 = 6;

/// Why the settings could not be loaded. Each one stops the process before it serves.
#[derive(Debug, Clone, Copy, PartialEq, Eq, Structural)]
pub enum ConfigError {
    /// The port is not a decimal number in `0..=65535`.
    InvalidPort,
    /// The rate is not a decimal number in `0..=u32::MAX`.
    InvalidReqLimit,
    /// The rate is zero.
    ZeroReqLimit,
    /// No secret key was given.
    MissingApiKey,
    /// The secret key holds a byte that may not stand in an HTTP header value.
    InvalidApiKey,
}

/// The digits of an unsigned number's text: the text without one leading `+`.
pub open spec fn unsigned_digits(s: Seq<char>) -> Seq<char> {
    if s.len() > 0 && s[0] == '+' {
        s.drop_first()
    } else {
        s
    }
}

/// Text that std reads as an unsigned integer, leaving the range aside: an optional
/// `+` and then one or more decimal digits.
pub open spec fn is_unsigned_text(s: Seq<char>) -> bool {
    let d = unsigned_digits(s);
    d.len() > 0 && forall|i: int| 0 <= i < d.len() ==> is_decimal_digit(#[trigger] d[i])
}

/// What std's integer parsing makes of `s` for an unsigned type whose largest value is `max`.
pub open spec fn unsigned_of(s: Seq<char>, max: nat) -> Option<nat> {
    if is_unsigned_text(s) && digits_value(unsigned_digits(s), 10) <= max {
        Some(digits_value(unsigned_digits(s), 10))
    } else {
        None
    }
}

/// Relies on `<u16 as FromStr>::from_str`: an optional `+`, then decimal digits, whose
/// value fits in a `u16`.
#[verifier::external_body]
fn parse_u16(s: &str) -> (r: Option<u16>)
    ensures
        r matches Some(v) ==> unsigned_of(s@, u16::MAX as nat) == Some(v as nat),
        r is None ==> unsigned_of(s@, u16::MAX as nat) is None,
{
    s.parse::<u16>().ok()
}

/// Relies on `<u32 as FromStr>::from_str`: an optional `+`, then decimal digits, whose
/// value fits in a `u32`.
#[verifier::external_body]
fn parse_u32(s: &str) -> (r: Option<u32>)
    ensures
        r matches Some(v) ==> unsigned_of(s@, u32::MAX as nat) == Some(v as nat),
        r is None ==> unsigned_of(s@, u32::MAX as nat) is None,
{
    s.parse::<u32>().ok()
}

/// A byte that `http::HeaderValue::from_str` accepts. A character outside ASCII is
/// written in UTF-8 with bytes of 128 and above only, which are all accepted.
pub open spec fn is_header_value_char(c: char) -> bool {
    (c as u32 >= 32 && c as u32 != 127) || c == '\t'
}

pub open spec fn is_header_value_text(s: Seq<char>) -> bool {
    forall|i: int| 0 <= i < s.len() ==> is_header_value_char(#[trigger] s[i])
}

/// Relies on `http::HeaderValue::from_str`: it accepts the text exactly when every byte
/// is a tab, or at least 32 and not 127.
#[verifier::external_body]
fn header_value_accepts(s: &str) -> (r: bool)
    ensures
        r == is_header_value_text(s@),
{
    hyper::header::HeaderValue::from_str(s).is_ok()
}

/// The port configured by `value`, or the default when there is none.
pub open spec fn port_of(value: Option<Seq<char>>) -> Result<u16, ConfigError> {
    match value {
        None => Ok(DEFAULT_PORT),
        Some(s) => match unsigned_of(s, u16::MAX as nat) {
            Some(n) => Ok(n as u16),
            None => Err(ConfigError::InvalidPort),
        },
    }
}

/// The rate configured by `value`, or the default when there is none. Zero is refused.
pub open spec fn req_limit_of(value: Option<Seq<char>>) -> Result<u32, ConfigError> {
    match value {
        None => Ok(DEFAULT_REQ_LIMIT_PER_SEC),
        Some(s) => match unsigned_of(s, u32::MAX as nat) {
            Some(n) => if n == 0 {
                Err(ConfigError::ZeroReqLimit)
            } else {
                Ok(n as u32)
            },
            None => Err(ConfigError::InvalidReqLimit),
        },
    }
}

/// The secret key configured by `value`; it is required, and must be a valid header value.
pub open spec fn api_key_of(value: Option<Seq<char>>) -> Result<Seq<char>, ConfigError> {
    match value {
        None => Err(ConfigError::MissingApiKey),
        Some(s) => if is_header_value_text(s) {
            Ok(s)
        } else {
            Err(ConfigError::InvalidApiKey)
        },
    }
}

pub open spec fn opt_view(value: Option<&str>) -> Option<Seq<char>> {
    match value {
        None => None,
        Some(s) => Some(s@),
    }
}

/// Reads the listening port from its setting, if there is one.
pub fn parse_port(value: Option<&str>) -> (r: Result<u16, ConfigError>)
    ensures
        r == port_of(opt_view(value)),
{
    match value {
        None => Ok(DEFAULT_PORT),
        Some(s) => match parse_u16(s) {
            Some(n) => Ok(n),
            None => Err(ConfigError::InvalidPort),
        },
    }
}

/// Reads the sustained requests per second allowed to one client, if it is set.
pub fn parse_req_limit(value: Option<&str>) -> (r: Result<u32, ConfigError>)
    ensures
        r == req_limit_of(opt_view(value)),
        r matches Ok(n) ==> n > 0,
{
    match value {
        None => Ok(DEFAULT_REQ_LIMIT_PER_SEC),
        Some(s) => match parse_u32(s) {
            Some(n) => if n == 0 {
                Err(ConfigError::ZeroReqLimit)
            } else {
                Ok(n)
            },
            None => Err(ConfigError::InvalidReqLimit),
        },
    }
}

/// Reads the secret key; its absence is an error.
pub fn parse_api_key(value: Option<&str>) -> (r: Result<String, ConfigError>)
    ensures
        match r {
            Ok(k) => api_key_of(opt_view(value)) == Ok::<Seq<char>, ConfigError>(k@),
            Err(e) => api_key_of(opt_view(value)) == Err::<Seq<char>, ConfigError>(e),
        },
{
    match value {
        None => Err(ConfigError::MissingApiKey),
        Some(s) => if header_value_accepts(s) {
            Ok(s.to_owned())
        } else {
            Err(ConfigError::InvalidApiKey)
        },
    }
}

#[verifier::external_type_specification]
#[verifier::external_body]
pub struct ExQuota(governor::Quota);

/// The largest burst that a quota admits, which is also its number of cells per period
/// (what `governor::Quota::burst_size` returns).
pub uninterp spec fn quota_burst(q: governor::Quota) -> nat;

/// Relies on `governor::Quota::per_second`: a quota of `rate` cells per second, stored as
/// its largest burst. `rate` is positive, so the conversion to `NonZeroU32` holds.
#[verifier::external_body]
fn quota_per_second(rate: u32) -> (r: governor::Quota)
    requires
        rate > 0,
    ensures
        quota_burst(r) == rate as nat,
{
    governor::Quota::per_second(std::num::NonZeroU32::new(rate).unwrap())
}

/// The settings of a running proxy.
pub struct Config {
    pub port: u16,
    pub req_limit_per_sec: u32,
    pub api_key: String,
}

impl Config {
    /// Settings that the proxy can run with: a positive rate, and a key that can be sent
    /// in a header.
    pub open spec fn wf(&self) -> bool {
        self.req_limit_per_sec > 0 && is_header_value_text(self.api_key@)
    }

    /// Loads the settings from the raw values of the port, the rate and the key, each of
    /// which may be unset. The first setting in that order that is wrong gives the error.
    pub fn from_values(port: Option<&str>, req_limit: Option<&str>, api_key: Option<&str>) -> (r:
        Result<Config, ConfigError>)
        ensures
            match r {
                Ok(c) => {
                    &&& c.wf()
                    &&& port_of(opt_view(port)) == Ok::<u16, ConfigError>(c.port)
                    &&& req_limit_of(opt_view(req_limit)) == Ok::<u32, ConfigError>(
                        c.req_limit_per_sec,
                    )
                    &&& api_key_of(opt_view(api_key)) == Ok::<Seq<char>, ConfigError>(c.api_key@)
                },
                Err(e) => {
                    ||| port_of(opt_view(port)) == Err::<u16, ConfigError>(e)
                    ||| (port_of(opt_view(port)) is Ok && req_limit_of(opt_view(req_limit))
                        == Err::<u32, ConfigError>(e))
                    ||| (port_of(opt_view(port)) is Ok && req_limit_of(opt_view(req_limit)) is Ok
                        && api_key_of(opt_view(api_key)) == Err::<Seq<char>, ConfigError>(e))
                },
            },
    {
        let port = match parse_port(port) {
            Ok(p) => p,
            Err(e) => return Err(e),
        };
        let req_limit_per_sec = match parse_req_limit(req_limit) {
            Ok(n) => n,
            Err(e) => return Err(e),
        };
        let api_key = match parse_api_key(api_key) {
            Ok(k) => k,
            Err(e) => return Err(e),
        };
        Ok(Config { port, req_limit_per_sec, api_key })
    }

    /// The per-client quota of the rate limiter: `req_limit_per_sec` requests each
    /// second, with bursts of up to as many.
    pub fn quota(&self) -> (r: governor::Quota)
        requires
            self.wf(),
        ensures
            quota_burst(r) == self.req_limit_per_sec as nat,
    {
        quota_per_second(self.req_limit_per_sec)
    }
}

} // verus!
