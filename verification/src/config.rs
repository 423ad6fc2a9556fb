//! Configuration of the proxy: listening endpoints, cache and upstream
//! timeouts, the optional callback to the calling canister, and the command
//! line overrides.
use vstd::prelude::*;
use crate::bytes::chars_of;
use crate::ic::{principal_from_text, principal_from_text_result};
use crate::text::{concat2, concat3, decimal_string, decimal_text};

verus! {

/// A span of time: whole seconds plus a sub-second part in nanoseconds.
#[derive(Clone, Copy, PartialEq, Eq, Structural, Debug)]
pub struct Duration {
    pub secs: u64,
    pub nanos: u32,
}

impl Duration {
    /// The span in nanoseconds.
    pub open spec fn total_nanos(self) -> int {
        self.secs * 1_000_000_000 + self.nanos
    }

    /// Well-formed spans keep the sub-second part below one second.
    pub open spec fn wf(self) -> bool {
        self.nanos < 1_000_000_000
    }

    pub open spec fn spec_from_secs(secs: u64) -> Duration {
        Duration { secs, nanos: 0 }
    }

    pub open spec fn spec_from_millis(millis: u64) -> Duration {
        Duration { secs: millis / 1000, nanos: ((millis % 1000) * 1_000_000) as u32 }
    }

    /// A span of `secs` seconds.
    pub fn from_secs(secs: u64) -> (res: Duration)
        ensures
            res == Duration::spec_from_secs(secs),
            res.wf(),
            res.total_nanos() == secs * 1_000_000_000,
    {
        Duration { secs, nanos: 0 }
    }

    /// A span of `millis` milliseconds.
    pub fn from_millis(millis: u64) -> (res: Duration)
        ensures
            res == Duration::spec_from_millis(millis),
            res.wf(),
            res.total_nanos() == millis * 1_000_000,
    {
        Duration { secs: millis / 1000, nanos: ((millis % 1000) * 1_000_000) as u32 }
    }

    /// The zero span.
    pub fn zero() -> (res: Duration)
        ensures
            res == Duration::spec_from_secs(0),
    {
        Duration { secs: 0, nanos: 0 }
    }
}

/// A canister to ask back before a request is forwarded upstream.
#[derive(Clone, Debug)]
pub struct Callback {
    /// The canister's principal, as raw bytes.
    pub canister: Vec<u8>,
    pub func: String,
    pub ic_local: bool,
    pub ic_url: Option<String>,
}

/// Timeouts towards the upstream server.
#[derive(Clone, Debug)]
pub struct UpstreamTimeouts {
    pub connect_timeout: Option<Duration>,
    pub read_timeout: Option<Duration>,
    pub total_timeout: Option<Duration>,
}

/// Cache settings.
#[derive(Clone, Debug)]
pub struct CacheConfig {
    pub cache_timeout: Duration,
}

/// Where a server listens.
#[derive(Clone, Debug)]
pub struct Serve {
    pub host: String,
    pub port: u16,
    pub https: bool,
}

/// The whole configuration.
#[derive(Clone, Debug)]
pub struct Config {
    pub bind_proxy: Serve,
    pub bind_api: Serve,
    /// Simple Bearer authentication of the proxy's callers.
    pub our_secret: Option<String>,
    pub require_x_principal: bool,
    pub cache: CacheConfig,
    pub upstream_timeouts: UpstreamTimeouts,
    pub callback: Option<Callback>,
    pub cert_file: Option<String>,
    pub key_file: Option<String>,
    /// Where plain requests go in place of the domain of their `Host`
    /// header.
    pub upstream_prefix: Option<String>,
    /// Headers (name, value) that every plain upstream request carries.
    pub upstream_headers: Vec<(String, String)>,
}

/// Command line options; each one that is given overrides the configuration.
#[derive(Clone, Debug)]
pub struct Args {
    pub config_file: Option<String>,
    pub bind_proxy_host: Option<String>,
    pub bind_proxy_port: Option<u16>,
    pub bind_proxy_https: Option<bool>,
    pub bind_api_host: Option<String>,
    pub bind_api_port: Option<u16>,
    pub bind_api_https: Option<bool>,
    pub our_secret: Option<String>,
    pub require_x_principal: Option<bool>,
    pub cache_timeout: Option<Duration>,
    pub connect_timeout: Option<Duration>,
    pub read_timeout: Option<Duration>,
    pub total_timeout: Option<Duration>,
}

impl Default for Serve {
    fn default() -> (res: Serve)
        ensures
            res.host@ == Seq::<char>::empty(),
            res.port == 0,
            !res.https,
    {
        Serve { host: String::new(), port: 0, https: false }
    }
}

impl Default for CacheConfig {
    fn default() -> (res: CacheConfig)
        ensures
            res.cache_timeout == Duration::spec_from_secs(0),
    {
        CacheConfig { cache_timeout: Duration::zero() }
    }
}

/// The default endpoint of the proxy: `localhost:8080` without TLS.
pub fn default_proxy_serve() -> (res: Serve)
    ensures
        res.host@ == "localhost"@,
        res.port == 8080,
        !res.https,
{
    Serve { host: "localhost".to_owned(), port: 8080, https: false }
}

/// The default endpoint of the API: `localhost:8084` without TLS.
pub fn default_api_serve() -> (res: Serve)
    ensures
        res.host@ == "localhost"@,
        res.port == 8084,
        !res.https,
{
    Serve { host: "localhost".to_owned(), port: 8084, https: false }
}

/// Default connect timeout: ten seconds.
pub fn default_upstream_connect_timeout() -> (res: Option<Duration>)
    ensures
        res == Some(Duration::spec_from_secs(10)),
{
    Some(Duration::from_secs(10))
}

/// Default read timeout: sixty seconds.
pub fn default_upstream_read_timeout() -> (res: Option<Duration>)
    ensures
        res == Some(Duration::spec_from_secs(60)),
{
    Some(Duration::from_secs(60))
}

/// Default total timeout: two minutes.
pub fn default_upstream_total_timeout() -> (res: Option<Duration>)
    ensures
        res == Some(Duration::spec_from_secs(120)),
{
    Some(Duration::from_secs(120))
}

/// By default the Internet Computer is not a local replica.
pub fn default_ic_local() -> (res: bool)
    ensures
        !res,
{
    false
}

impl Default for UpstreamTimeouts {
    fn default() -> (res: UpstreamTimeouts)
        ensures
            res.connect_timeout == Some(Duration::spec_from_secs(10)),
            res.read_timeout == Some(Duration::spec_from_secs(60)),
            res.total_timeout == Some(Duration::spec_from_secs(120)),
    {
        UpstreamTimeouts {
            connect_timeout: default_upstream_connect_timeout(),
            read_timeout: default_upstream_read_timeout(),
            total_timeout: default_upstream_total_timeout(),
        }
    }
}

/// Whether `c` is an ASCII decimal digit.
pub open spec fn is_digit(c: char) -> bool {
    '0' <= c && c <= '9'
}

/// The number of leading ASCII decimal digits of `cs`.
pub open spec fn digit_prefix_len(cs: Seq<char>) -> nat
    decreases cs.len(),
{
    if cs.len() == 0 || !is_digit(cs[0]) {
        0
    } else {
        1 + digit_prefix_len(cs.drop_first())
    }
}

/// The value of a string of ASCII decimal digits.
pub open spec fn decimal_value(ds: Seq<char>) -> nat
    decreases ds.len(),
{
    if ds.len() == 0 {
        0
    } else {
        decimal_value(ds.drop_last()) * 10 + ((ds.last() as int - '0' as int) as nat)
    }
}

/// Whether `c` belongs to one of Unicode's general categories for numbers
/// (what `char::is_numeric` decides).
pub uninterp spec fn unicode_is_numeric(c: char) -> bool;

/// `char::is_numeric`.
#[verifier::external_body]
fn char_is_numeric(c: char) -> (res: bool)
    ensures
        res == unicode_is_numeric(c),
{
    c.is_numeric()
}

/// The error for a duration without a usable number.
pub open spec fn number_error() -> Seq<char> {
    "Can't extract number"@
}

/// The error for a duration with an unknown unit.
pub open spec fn unit_error() -> Seq<char> {
    "Invalid duration unit"@
}

/// The units a duration may carry.
#[derive(Clone, Copy, PartialEq, Eq, Structural, Debug)]
pub enum DurationUnit {
    Days,
    Hours,
    Minutes,
    Seconds,
    Millis,
}

/// The unit named by `u`, if any.
pub open spec fn unit_named(u: Seq<char>) -> Option<DurationUnit> {
    if u == seq!['d'] {
        Some(DurationUnit::Days)
    } else if u == seq!['h'] {
        Some(DurationUnit::Hours)
    } else if u == seq!['m'] {
        Some(DurationUnit::Minutes)
    } else if u == seq!['s'] {
        Some(DurationUnit::Seconds)
    } else if u == seq!['m', 's'] {
        Some(DurationUnit::Millis)
    } else {
        None
    }
}

/// The leading run of numeric characters is a number that fits in 64 bits:
/// it consists of ASCII digits only (the character after the digits, if not
/// ASCII, is not numeric), is not empty, and does not overflow.
pub open spec fn duration_number_ok(cs: Seq<char>) -> bool {
    let p = digit_prefix_len(cs);
    &&& p > 0
    &&& decimal_value(cs.take(p as int)) <= u64::MAX
    &&& !(p < cs.len() && cs[p as int] > '\x7f' && unicode_is_numeric(cs[p as int]))
}

/// The number of a duration text (meaningful when `duration_number_ok`).
pub open spec fn duration_number(cs: Seq<char>) -> nat {
    decimal_value(cs.take(digit_prefix_len(cs) as int))
}

/// The unit text of a duration text: what follows the digits.
pub open spec fn duration_unit_text(cs: Seq<char>) -> Seq<char> {
    cs.skip(digit_prefix_len(cs) as int)
}

/// The span `v` units long.
pub open spec fn span_of(v: nat, unit: DurationUnit) -> Duration {
    match unit {
        DurationUnit::Days => Duration::spec_from_secs((v * 86400) as u64),
        DurationUnit::Hours => Duration::spec_from_secs((v * 3600) as u64),
        DurationUnit::Minutes => Duration::spec_from_secs((v * 60) as u64),
        DurationUnit::Seconds => Duration::spec_from_secs(v as u64),
        DurationUnit::Millis => Duration::spec_from_millis(v as u64),
    }
}

/// What a duration text such as `10s`, `5m` or `250ms` denotes: a number,
/// then one of the units `d`, `h`, `m`, `s`, `ms`.
pub open spec fn duration_text(cs: Seq<char>) -> Result<Duration, Seq<char>> {
    if !duration_number_ok(cs) {
        Err(number_error())
    } else {
        match unit_named(duration_unit_text(cs)) {
            Some(u) => Ok(span_of(duration_number(cs), u)),
            None => Err(unit_error()),
        }
    }
}

/// The number of seconds in a duration text fits in 64 bits (the
/// multiplication into seconds does not overflow).
pub open spec fn duration_text_in_range(cs: Seq<char>) -> bool {
    duration_number_ok(cs) ==> match unit_named(duration_unit_text(cs)) {
        Some(DurationUnit::Days) => duration_number(cs) * 86400 <= u64::MAX,
        Some(DurationUnit::Hours) => duration_number(cs) * 3600 <= u64::MAX,
        Some(DurationUnit::Minutes) => duration_number(cs) * 60 <= u64::MAX,
        _ => true,
    }
}

proof fn lemma_digit_prefix(cs: Seq<char>)
    ensures
        digit_prefix_len(cs) <= cs.len(),
        forall|i: int| 0 <= i < digit_prefix_len(cs) ==> is_digit(#[trigger] cs[i]),
        digit_prefix_len(cs) < cs.len() ==> !is_digit(cs[digit_prefix_len(cs) as int]),
    decreases cs.len(),
{
    if cs.len() > 0 && is_digit(cs[0]) {
        lemma_digit_prefix(cs.drop_first());
        assert forall|i: int| 0 <= i < digit_prefix_len(cs) implies is_digit(#[trigger] cs[i]) by {
            if i > 0 {
                assert(cs[i] == cs.drop_first()[i - 1]);
            }
        }
    }
}

proof fn lemma_digit_prefix_len_of(cs: Seq<char>, p: int)
    requires
        0 <= p <= cs.len(),
        forall|i: int| 0 <= i < p ==> is_digit(#[trigger] cs[i]),
        p < cs.len() ==> !is_digit(cs[p]),
    ensures
        digit_prefix_len(cs) == p,
    decreases cs.len(),
{
    if cs.len() > 0 && is_digit(cs[0]) {
        assert(p > 0);
        assert forall|i: int| 0 <= i < p - 1 implies is_digit(#[trigger] cs.drop_first()[i]) by {
            assert(cs.drop_first()[i] == cs[i + 1]);
        }
        lemma_digit_prefix_len_of(cs.drop_first(), p - 1);
    }
}

proof fn lemma_decimal_value_monotone(ds: Seq<char>, i: int)
    requires
        0 <= i <= ds.len(),
        forall|k: int| 0 <= k < ds.len() ==> is_digit(#[trigger] ds[k]),
    ensures
        decimal_value(ds.take(i)) <= decimal_value(ds),
    decreases ds.len() - i,
{
    if i < ds.len() {
        lemma_decimal_value_monotone(ds, i + 1);
        assert(ds.take(i + 1).drop_last() =~= ds.take(i));
    } else {
        assert(ds.take(i) =~= ds);
    }
}

/// Reads a duration such as `10s`, `5m`, `2h`, `1d` or `250ms`; `None`
/// when the number of seconds does not fit in 64 bits.
pub fn read_duration(s: &str) -> (res: Option<Result<Duration, String>>)
    ensures
        match res {
            None => !duration_text_in_range(s@),
            Some(r) => duration_text_in_range(s@) && match (r, duration_text(s@)) {
                (Ok(d), Ok(e)) => d == e,
                (Err(m), Err(e)) => m@ == e,
                _ => false,
            },
        },
{
    let cs = chars_of(s);
    let n = cs.len();
    // Read the leading digits.
    let mut p: usize = 0;
    let mut value: u64 = 0;
    let mut overflow = false;
    while p < n && '0' <= cs[p] && cs[p] <= '9'
        invariant
            cs@ == s@,
            n == cs@.len(),
            p <= n,
            forall|i: int| 0 <= i < p ==> is_digit(#[trigger] cs@[i]),
            !overflow ==> value == decimal_value(cs@.take(p as int)),
            overflow ==> decimal_value(cs@.take(p as int)) > u64::MAX,
        decreases n - p,
    {
        let d = (cs[p] as u32 - '0' as u32) as u64;
        proof {
            assert(cs@.take(p + 1).drop_last() =~= cs@.take(p as int));
            assert(cs@.take(p + 1).last() == cs@[p as int]);
        }
        if !overflow {
            if value > (u64::MAX - d) / 10 {
                overflow = true;
            } else {
                value = value * 10 + d;
            }
        }
        p = p + 1;
    }
    proof {
        lemma_digit_prefix_len_of(cs@, p as int);
        lemma_digit_prefix(cs@);
    }
    let number_error = "Can't extract number".to_owned();
    if p < n && cs[p] > '\x7f' && char_is_numeric(cs[p]) {
        return Some(Err(number_error));
    }
    if p == 0 || overflow {
        return Some(Err(number_error));
    }
    let rest = n - p;
    let c0 = if rest >= 1 { cs[p] } else { ' ' };
    let c1 = if rest >= 2 { cs[p + 1] } else { ' ' };
    proof {
        let u = cs@.skip(p as int);
        assert(u.len() == rest);
        if rest >= 1 { assert(u[0] == c0); }
        if rest >= 2 { assert(u[1] == c1); }
        assert(rest == 1 && c0 == 'd' ==> u =~= seq!['d']);
        assert(rest == 1 && c0 == 'h' ==> u =~= seq!['h']);
        assert(rest == 1 && c0 == 'm' ==> u =~= seq!['m']);
        assert(rest == 1 && c0 == 's' ==> u =~= seq!['s']);
        assert(rest == 2 && c0 == 'm' && c1 == 's' ==> u =~= seq!['m', 's']);
    }
    let factor: u64 = if rest == 1 && c0 == 'd' {
        86400
    } else if rest == 1 && c0 == 'h' {
        3600
    } else if rest == 1 && c0 == 'm' {
        60
    } else {
        1
    };
    if rest == 2 && c0 == 'm' && c1 == 's' {
        Some(Ok(Duration::from_millis(value)))
    } else if rest == 1 && (c0 == 'd' || c0 == 'h' || c0 == 'm' || c0 == 's') {
        match value.checked_mul(factor) {
            Some(secs) => Some(Ok(Duration::from_secs(secs))),
            None => None,
        }
    } else {
        Some(Err("Invalid duration unit".to_owned()))
    }
}

/// Reads a duration such as `10s`, `5m`, `2h`, `1d` or `250ms` (the
/// parser of the command-line timeouts).
pub fn extract_duration_simple(s: &str) -> (res: Result<Duration, String>)
    requires
        duration_text_in_range(s@),
    ensures
        match (res, duration_text(s@)) {
            (Ok(d), Ok(e)) => d == e,
            (Err(m), Err(e)) => m@ == e,
            _ => false,
        },
{
    match read_duration(s) {
        Some(r) => r,
        None => Err("Invalid duration unit".to_owned()),
    }
}

/// A duration setting of the configuration file: any refusal is reported
/// as an invalid unit.
pub fn extract_duration(s: &str) -> (res: Result<Duration, String>)
    requires
        duration_text_in_range(s@),
    ensures
        match duration_text(s@) {
            Ok(e) => res == Ok::<Duration, String>(e),
            Err(_) => res matches Err(m) && m@ == unit_error(),
        },
{
    match extract_duration_simple(s) {
        Ok(d) => Ok(d),
        Err(_) => Err("Invalid duration unit".to_owned()),
    }
}

/// A required duration setting (`cache_timeout`).
pub fn parse_duration(s: &str) -> (res: Result<Duration, String>)
    requires
        duration_text_in_range(s@),
    ensures
        match duration_text(s@) {
            Ok(e) => res == Ok::<Duration, String>(e),
            Err(_) => res matches Err(m) && m@ == unit_error(),
        },
{
    extract_duration(s)
}

/// An optional duration setting (the upstream timeouts): absent stays
/// absent.
pub fn parse_duration_option(s: Option<&str>) -> (res: Result<Option<Duration>, String>)
    requires
        s matches Some(t) ==> duration_text_in_range(t@),
    ensures
        match s {
            None => res == Ok::<Option<Duration>, String>(None),
            Some(t) => match duration_text(t@) {
                Ok(e) => res == Ok::<Option<Duration>, String>(Some(e)),
                Err(_) => res matches Err(m) && m@ == unit_error(),
            },
        },
{
    match s {
        None => Ok(None),
        Some(t) => match extract_duration(t) {
            Ok(d) => Ok(Some(d)),
            Err(m) => Err(m),
        },
    }
}

/// The canister of the callback setting: a principal's text, read into the
/// principal's bytes; refused with `Invalid principal: ` and the reason.
pub fn deserialize_canister_id(input: &str) -> (res: Result<Vec<u8>, String>)
    ensures
        match principal_from_text_result(input@) {
            Ok(b) => res matches Ok(v) && v@ == b,
            Err(e) => res matches Err(m) && m@ == "Invalid principal: "@ + e,
        },
{
    match principal_from_text(input) {
        Ok(b) => Ok(b),
        Err(e) => Err(concat2("Invalid principal: ", e.as_str())),
    }
}

/// `o` when it holds a value, `d` otherwise.
pub open spec fn or_keep<T>(o: Option<T>, d: T) -> T {
    match o {
        Some(v) => v,
        None => d,
    }
}

/// `Some` of the value `o` holds when it holds one, `d` otherwise.
pub open spec fn or_keep_some<T>(o: Option<T>, d: Option<T>) -> Option<T> {
    match o {
        Some(v) => Some(v),
        None => d,
    }
}

/// Replaces `*field` with the value `o` holds, if any.
fn override_with<T>(field: &mut T, o: Option<T>)
    ensures
        *final(field) == or_keep(o, *old(field)),
{
    if let Some(v) = o {
        *field = v;
    }
}

/// The address a server binds to: `host:port`.
pub fn listen_address(serve: &Serve) -> (res: String)
    ensures
        res@ == serve.host@ + ":"@ + decimal_text(serve.port as nat),
{
    let port = decimal_string(serve.port as u64);
    concat3(serve.host.as_str(), ":", port.as_str())
}

/// Replaces `*field` with `Some` of the value `o` holds, if any.
fn override_with_some<T>(field: &mut Option<T>, o: Option<T>)
    ensures
        *final(field) == or_keep_some(o, *old(field)),
{
    if let Some(v) = o {
        *field = Some(v);
    }
}

impl Default for Config {
    fn default() -> (res: Config)
        ensures
            res.bind_proxy.host@ == "localhost"@,
            res.bind_proxy.port == 8080,
            !res.bind_proxy.https,
            res.bind_api.host@ == "localhost"@,
            res.bind_api.port == 8084,
            !res.bind_api.https,
            res.our_secret is None,
            !res.require_x_principal,
            res.cache.cache_timeout == Duration::spec_from_secs(0),
            res.upstream_timeouts.connect_timeout == Some(Duration::spec_from_secs(10)),
            res.upstream_timeouts.read_timeout == Some(Duration::spec_from_secs(60)),
            res.upstream_timeouts.total_timeout == Some(Duration::spec_from_secs(120)),
            res.callback is None,
            res.cert_file is None,
            res.key_file is None,
            res.upstream_prefix is None,
            res.upstream_headers@.len() == 0,
    {
        Config {
            bind_proxy: default_proxy_serve(),
            bind_api: default_api_serve(),
            our_secret: None,
            require_x_principal: false,
            cache: CacheConfig::default(),
            upstream_timeouts: UpstreamTimeouts::default(),
            callback: None,
            cert_file: None,
            key_file: None,
            upstream_prefix: None,
            upstream_headers: Vec::new(),
        }
    }
}

impl Config {
    /// Overrides each setting for which the command line gives a value.
    pub fn update_from_args(&mut self, cli: Args)
        ensures
            final(self).bind_proxy.host == or_keep(cli.bind_proxy_host, old(self).bind_proxy.host),
            final(self).bind_proxy.port == or_keep(cli.bind_proxy_port, old(self).bind_proxy.port),
            final(self).bind_proxy.https == or_keep(cli.bind_proxy_https, old(self).bind_proxy.https),
            final(self).bind_api.host == or_keep(cli.bind_api_host, old(self).bind_api.host),
            final(self).bind_api.port == or_keep(cli.bind_api_port, old(self).bind_api.port),
            final(self).bind_api.https == or_keep(cli.bind_api_https, old(self).bind_api.https),
            final(self).our_secret == or_keep_some(cli.our_secret, old(self).our_secret),
            final(self).require_x_principal == or_keep(cli.require_x_principal, old(self).require_x_principal),
            final(self).cache.cache_timeout == or_keep(cli.cache_timeout, old(self).cache.cache_timeout),
            final(self).upstream_timeouts.connect_timeout == or_keep_some(
                cli.connect_timeout,
                old(self).upstream_timeouts.connect_timeout,
            ),
            final(self).upstream_timeouts.read_timeout == or_keep_some(
                cli.read_timeout,
                old(self).upstream_timeouts.read_timeout,
            ),
            final(self).upstream_timeouts.total_timeout == or_keep_some(
                cli.total_timeout,
                old(self).upstream_timeouts.total_timeout,
            ),
            final(self).callback == old(self).callback,
            final(self).cert_file == old(self).cert_file,
            final(self).key_file == old(self).key_file,
            final(self).upstream_prefix == old(self).upstream_prefix,
            final(self).upstream_headers == old(self).upstream_headers,
    {
        override_with(&mut self.bind_proxy.host, cli.bind_proxy_host);
        override_with(&mut self.bind_proxy.port, cli.bind_proxy_port);
        override_with(&mut self.bind_proxy.https, cli.bind_proxy_https);
        override_with(&mut self.bind_api.host, cli.bind_api_host);
        override_with(&mut self.bind_api.port, cli.bind_api_port);
        override_with(&mut self.bind_api.https, cli.bind_api_https);
        override_with_some(&mut self.our_secret, cli.our_secret);
        override_with(&mut self.require_x_principal, cli.require_x_principal);
        override_with(&mut self.cache.cache_timeout, cli.cache_timeout);
        override_with_some(&mut self.upstream_timeouts.connect_timeout, cli.connect_timeout);
        override_with_some(&mut self.upstream_timeouts.read_timeout, cli.read_timeout);
        override_with_some(&mut self.upstream_timeouts.total_timeout, cli.total_timeout);
    }

    /// A callback to a local replica without an explicit URL talks to
    /// `http://localhost:8000`.
    pub fn resolve_local_ic_url(&mut self)
        ensures
            final(self).bind_proxy == old(self).bind_proxy,
            final(self).bind_api == old(self).bind_api,
            final(self).our_secret == old(self).our_secret,
            final(self).require_x_principal == old(self).require_x_principal,
            final(self).cache == old(self).cache,
            final(self).upstream_timeouts == old(self).upstream_timeouts,
            final(self).cert_file == old(self).cert_file,
            final(self).key_file == old(self).key_file,
            match (old(self).callback, final(self).callback) {
                (None, None) => true,
                (Some(a), Some(b)) => {
                    &&& b.canister == a.canister
                    &&& b.func == a.func
                    &&& b.ic_local == a.ic_local
                    &&& if a.ic_url is None && a.ic_local {
                        b.ic_url matches Some(u) && u@ == "http://localhost:8000"@
                    } else {
                        b.ic_url == a.ic_url
                    }
                },
                _ => false,
            },
    {
        if let Some(callback) = &mut self.callback {
            if callback.ic_url.is_none() && callback.ic_local {
                callback.ic_url = Some("http://localhost:8000".to_owned());
            }
        }
    }
}

} // verus!
