//! Runtime configuration: its shape, its defaults and its validation.
use vstd::prelude::*;

use crate::metrics::string_views;
use crate::net::{ipnet_parse, parse_ipnet, ClientIp};
use crate::uniques::{all_digits, digits_value};
use crate::text::{
    ascii_lower_seq, chars_eq, chars_of, eq_str, is_ascii_alphanumeric, lower_chars, starts_with,
    string_of, trim, trim_chars, trim_end_char, trim_end_char_chars, trim_str,
};

verus! {

/// Complete runtime configuration for a Watchdog instance.
#[derive(Clone)]
pub struct Config {
    pub site: SiteConfig,
    pub limits: LimitsConfig,
    pub server: ServerConfig,
    pub security: SecurityConfig,
}

/// Site-specific analytics behavior and collection controls.
///
/// `sampling_bits` holds the IEEE-754 binary64 bit pattern of the sampling
/// probability (`f64::to_bits`).
#[derive(Clone)]
pub struct SiteConfig {
    pub domains: Vec<String>,
    pub salt_rotation: Option<SaltRotation>,
    pub sampling_bits: u64,
    pub collect: CollectConfig,
    pub custom_events: Vec<String>,
    pub path: PathConfig,
}

/// Salt rotation period used for unique visitor estimates.
#[derive(Clone, Copy, Debug, PartialEq, Eq, Structural)]
pub enum SaltRotation {
    Daily,
    Hourly,
}

/// Feature flags for dimensions and event types collected into metrics.
#[derive(Clone, Copy, Debug, PartialEq, Eq, Structural)]
pub struct CollectConfig {
    pub pageviews: bool,
    pub sessions: bool,
    pub engagement: bool,
    pub country: bool,
    pub device: bool,
    pub browser: bool,
    pub os: bool,
    pub screen: bool,
    pub referrer: ReferrerMode,
    pub acquisition: bool,
    pub properties: bool,
    pub domain: bool,
}

/// Referrer detail level retained in Prometheus labels.
#[derive(Clone, Copy, Debug, PartialEq, Eq, Structural)]
pub enum ReferrerMode {
    Off,
    Domain,
    Url,
}

/// Path normalization options applied before recording metrics.
#[derive(Clone, Copy, Debug, PartialEq, Eq, Structural)]
pub struct PathConfig {
    pub strip_query: bool,
    pub strip_fragment: bool,
    pub collapse_numeric_segments: bool,
    pub max_segments: usize,
    pub normalize_trailing_slash: bool,
}

/// Cardinality and rate limits used to bound metrics growth.
#[derive(Clone, Copy, Debug, PartialEq, Eq, Structural)]
pub struct LimitsConfig {
    pub max_paths: usize,
    pub max_events_per_minute: u32,
    pub max_sources: usize,
    pub max_custom_events: usize,
    pub max_dimension_values: usize,
    pub max_property_keys: usize,
    pub max_property_values: usize,
    pub max_metrics_per_minute: u32,
    pub device_breakpoints: DeviceBreakpoints,
}

/// Screen-width breakpoints used for device and screen labels.
#[derive(Clone, Copy, Debug, PartialEq, Eq, Structural)]
pub struct DeviceBreakpoints {
    pub mobile: u16,
    pub tablet: u16,
}

/// Security controls for trusted proxies, CORS, and metrics access.
#[derive(Clone)]
pub struct SecurityConfig {
    pub trusted_proxies: Vec<String>,
    pub cors: CorsConfig,
    pub metrics_auth: AuthConfig,
}

/// CORS policy for the event ingestion endpoint.
#[derive(Clone)]
pub struct CorsConfig {
    pub enabled: bool,
    pub allowed_origins: Vec<String>,
}

/// Optional HTTP Basic authentication for the metrics endpoint.
#[derive(Clone)]
pub struct AuthConfig {
    pub enabled: bool,
    pub username: String,
    pub password: String,
}

/// HTTP listener, endpoint, and state-file settings.
#[derive(Clone)]
pub struct ServerConfig {
    pub listen_addr: String,
    pub metrics_path: String,
    pub ingestion_path: String,
    pub state_path: String,
}

/// Command-line overrides applied after file and environment loading.
pub struct Overrides {
    pub listen_addr: Option<String>,
    pub metrics_path: Option<String>,
    pub ingestion_path: Option<String>,
}

impl SaltRotation {
    pub open spec fn spec_name(self) -> Seq<char> {
        match self {
            SaltRotation::Daily => seq!['d', 'a', 'i', 'l', 'y'],
            SaltRotation::Hourly => seq!['h', 'o', 'u', 'r', 'l', 'y'],
        }
    }

    /// Returns the TOML representation for this rotation period.
    pub fn as_str(self) -> (s: &'static str)
        ensures
            s@ == self.spec_name(),
    {
        match self {
            SaltRotation::Daily => {
                let s = "daily";
                proof {
                    reveal_strlit("daily");
                }
                s
            },
            SaltRotation::Hourly => {
                let s = "hourly";
                proof {
                    reveal_strlit("hourly");
                }
                s
            },
        }
    }
}

/// IEEE-754 binary64 bit pattern of `1.0`.
pub const ONE_BITS: u64 = 0x3FF0_0000_0000_0000;

/// IEEE-754 binary64 bit pattern of `-0.0`.
pub const NEGATIVE_ZERO_BITS: u64 = 0x8000_0000_0000_0000;

/// Whether the binary64 value with these bits lies in `0.0..=1.0`.
///
/// Non-negative binary64 values order like their bit patterns, NaNs lie above
/// the bits of infinity, and `-0.0` compares equal to `0.0`.
pub open spec fn unit_interval_bits(bits: u64) -> bool {
    bits <= ONE_BITS || bits == NEGATIVE_ZERO_BITS
}

impl Default for SiteConfig {
    fn default() -> (r: Self)
        ensures
            r.domains@.len() == 0,
            r.salt_rotation is None,
            r.sampling_bits == ONE_BITS,
            r.collect == default_collect(),
            r.custom_events@.len() == 0,
            r.path == default_path(),
    {
        SiteConfig {
            domains: Vec::new(),
            salt_rotation: None,
            sampling_bits: ONE_BITS,
            collect: CollectConfig::default(),
            custom_events: Vec::new(),
            path: PathConfig::default(),
        }
    }
}

pub open spec fn default_collect() -> CollectConfig {
    CollectConfig {
        pageviews: true,
        sessions: true,
        engagement: true,
        country: false,
        device: true,
        browser: false,
        os: false,
        screen: false,
        referrer: ReferrerMode::Domain,
        acquisition: false,
        properties: false,
        domain: false,
    }
}

impl Default for CollectConfig {
    fn default() -> (r: Self)
        ensures
            r == default_collect(),
    {
        CollectConfig {
            pageviews: true,
            sessions: true,
            engagement: true,
            country: false,
            device: true,
            browser: false,
            os: false,
            screen: false,
            referrer: ReferrerMode::Domain,
            acquisition: false,
            properties: false,
            domain: false,
        }
    }
}

impl Default for ReferrerMode {
    fn default() -> (r: Self)
        ensures
            r == ReferrerMode::Domain,
    {
        ReferrerMode::Domain
    }
}

pub open spec fn default_path() -> PathConfig {
    PathConfig {
        strip_query: true,
        strip_fragment: true,
        collapse_numeric_segments: true,
        max_segments: 5,
        normalize_trailing_slash: true,
    }
}

impl Default for PathConfig {
    fn default() -> (r: Self)
        ensures
            r == default_path(),
    {
        PathConfig {
            strip_query: true,
            strip_fragment: true,
            collapse_numeric_segments: true,
            max_segments: 5,
            normalize_trailing_slash: true,
        }
    }
}

pub open spec fn default_limits() -> LimitsConfig {
    LimitsConfig {
        max_paths: 10000,
        max_events_per_minute: 10000,
        max_sources: 500,
        max_custom_events: 100,
        max_dimension_values: 1000,
        max_property_keys: 50,
        max_property_values: 500,
        max_metrics_per_minute: 60,
        device_breakpoints: DeviceBreakpoints { mobile: 768, tablet: 1024 },
    }
}

impl Default for LimitsConfig {
    fn default() -> (r: Self)
        ensures
            r == default_limits(),
    {
        LimitsConfig {
            max_paths: 10000,
            max_events_per_minute: 10000,
            max_sources: 500,
            max_custom_events: 100,
            max_dimension_values: 1000,
            max_property_keys: 50,
            max_property_values: 500,
            max_metrics_per_minute: 60,
            device_breakpoints: DeviceBreakpoints::default(),
        }
    }
}

impl Default for DeviceBreakpoints {
    fn default() -> (r: Self)
        ensures
            r == (DeviceBreakpoints { mobile: 768, tablet: 1024 }),
    {
        DeviceBreakpoints { mobile: 768, tablet: 1024 }
    }
}

impl Default for SecurityConfig {
    fn default() -> (r: Self)
        ensures
            r.trusted_proxies@.len() == 0,
            !r.cors.enabled,
            r.cors.allowed_origins@.len() == 0,
            !r.metrics_auth.enabled,
            r.metrics_auth.username@.len() == 0,
            r.metrics_auth.password@.len() == 0,
    {
        SecurityConfig {
            trusted_proxies: Vec::new(),
            cors: CorsConfig::default(),
            metrics_auth: AuthConfig::default(),
        }
    }
}

impl Default for CorsConfig {
    fn default() -> (r: Self)
        ensures
            !r.enabled,
            r.allowed_origins@.len() == 0,
    {
        CorsConfig { enabled: false, allowed_origins: Vec::new() }
    }
}

impl Default for AuthConfig {
    fn default() -> (r: Self)
        ensures
            !r.enabled,
            r.username@.len() == 0,
            r.password@.len() == 0,
    {
        AuthConfig { enabled: false, username: String::new(), password: String::new() }
    }
}

impl Default for ServerConfig {
    fn default() -> (r: Self)
        ensures
            r.listen_addr@ == "127.0.0.1:8080"@,
            r.metrics_path@ == "/metrics"@,
            r.ingestion_path@ == "/api/event"@,
            r.state_path@ == "/var/lib/watchdog/hll.state"@,
    {
        ServerConfig {
            listen_addr: crate::text::owned("127.0.0.1:8080"),
            metrics_path: crate::text::owned("/metrics"),
            ingestion_path: crate::text::owned("/api/event"),
            state_path: crate::text::owned("/var/lib/watchdog/hll.state"),
        }
    }
}

impl Default for Overrides {
    fn default() -> (r: Self)
        ensures
            r.listen_addr is None,
            r.metrics_path is None,
            r.ingestion_path is None,
    {
        Overrides { listen_addr: None, metrics_path: None, ingestion_path: None }
    }
}

impl Default for Config {
    fn default() -> (r: Self)
        ensures
            r.site.domains@.len() == 0,
            r.site.salt_rotation is None,
            r.site.sampling_bits == ONE_BITS,
            r.site.collect == default_collect(),
            r.site.custom_events@.len() == 0,
            r.site.path == default_path(),
            r.limits == default_limits(),
            r.server.listen_addr@ == "127.0.0.1:8080"@,
            r.server.metrics_path@ == "/metrics"@,
            r.server.ingestion_path@ == "/api/event"@,
            r.server.state_path@ == "/var/lib/watchdog/hll.state"@,
            r.security.trusted_proxies@.len() == 0,
            !r.security.cors.enabled,
            r.security.cors.allowed_origins@.len() == 0,
            !r.security.metrics_auth.enabled,
            r.security.metrics_auth.username@.len() == 0,
            r.security.metrics_auth.password@.len() == 0,
    {
        Config {
            site: SiteConfig::default(),
            limits: LimitsConfig::default(),
            server: ServerConfig::default(),
            security: SecurityConfig::default(),
        }
    }
}

/// Errors produced while loading or validating configuration.
#[derive(Debug)]
pub enum ConfigError {
    Extract(String),
    ConfigFileMissing(String),
    InvalidListenAddr(String),
    InvalidServerPathChars { field: &'static str },
    InvalidMaxEventsPerMinute,
    InvalidMaxMetricsPerMinute,
    MissingDomains,
    InvalidSampling,
    InvalidMaxPaths,
    InvalidMaxSources,
    InvalidMaxCustomEvents,
    InvalidMaxDimensionValues,
    InvalidMaxPropertyKeys,
    InvalidMaxPropertyValues,
    InvalidDeviceBreakpoints,
    InvalidMetricsAuth,
    InvalidCors,
    InvalidTrustedProxy(String),
    InvalidServerPath { field: &'static str },
    DuplicateServerPath,
    ReservedServerPath { field: &'static str, path: String },
}

/// `ConfigError` with its strings taken by their views.
pub enum ConfigErrorView {
    Extract(Seq<char>),
    ConfigFileMissing(Seq<char>),
    InvalidListenAddr(Seq<char>),
    InvalidServerPathChars(Seq<char>),
    InvalidMaxEventsPerMinute,
    InvalidMaxMetricsPerMinute,
    MissingDomains,
    InvalidSampling,
    InvalidMaxPaths,
    InvalidMaxSources,
    InvalidMaxCustomEvents,
    InvalidMaxDimensionValues,
    InvalidMaxPropertyKeys,
    InvalidMaxPropertyValues,
    InvalidDeviceBreakpoints,
    InvalidMetricsAuth,
    InvalidCors,
    InvalidTrustedProxy(Seq<char>),
    InvalidServerPath(Seq<char>),
    DuplicateServerPath,
    ReservedServerPath(Seq<char>, Seq<char>),
}

impl View for ConfigError {
    type V = ConfigErrorView;

    open spec fn view(&self) -> ConfigErrorView {
        match self {
            ConfigError::Extract(s) => ConfigErrorView::Extract(s@),
            ConfigError::ConfigFileMissing(s) => ConfigErrorView::ConfigFileMissing(s@),
            ConfigError::InvalidListenAddr(s) => ConfigErrorView::InvalidListenAddr(s@),
            ConfigError::InvalidServerPathChars { field } => ConfigErrorView::InvalidServerPathChars(
                field@,
            ),
            ConfigError::InvalidMaxEventsPerMinute => ConfigErrorView::InvalidMaxEventsPerMinute,
            ConfigError::InvalidMaxMetricsPerMinute => ConfigErrorView::InvalidMaxMetricsPerMinute,
            ConfigError::MissingDomains => ConfigErrorView::MissingDomains,
            ConfigError::InvalidSampling => ConfigErrorView::InvalidSampling,
            ConfigError::InvalidMaxPaths => ConfigErrorView::InvalidMaxPaths,
            ConfigError::InvalidMaxSources => ConfigErrorView::InvalidMaxSources,
            ConfigError::InvalidMaxCustomEvents => ConfigErrorView::InvalidMaxCustomEvents,
            ConfigError::InvalidMaxDimensionValues => ConfigErrorView::InvalidMaxDimensionValues,
            ConfigError::InvalidMaxPropertyKeys => ConfigErrorView::InvalidMaxPropertyKeys,
            ConfigError::InvalidMaxPropertyValues => ConfigErrorView::InvalidMaxPropertyValues,
            ConfigError::InvalidDeviceBreakpoints => ConfigErrorView::InvalidDeviceBreakpoints,
            ConfigError::InvalidMetricsAuth => ConfigErrorView::InvalidMetricsAuth,
            ConfigError::InvalidCors => ConfigErrorView::InvalidCors,
            ConfigError::InvalidTrustedProxy(s) => ConfigErrorView::InvalidTrustedProxy(s@),
            ConfigError::InvalidServerPath { field } => ConfigErrorView::InvalidServerPath(field@),
            ConfigError::DuplicateServerPath => ConfigErrorView::DuplicateServerPath,
            ConfigError::ReservedServerPath { field, path } => ConfigErrorView::ReservedServerPath(
                field@,
                path@,
            ),
        }
    }
}

/// Outcomes of the `std::net` address parses that validation depends on:
/// whether `server.listen_addr` parses as a `SocketAddr`, and what each entry
/// of `security.trusted_proxies` (by position) parses to as an `IpAddr`.
/// Entries past the end of `trusted_proxy_ips` count as not parsing.
pub struct AddressChecks {
    pub listen_addr_is_socket_addr: bool,
    pub trusted_proxy_ips: Vec<Option<ClientIp>>,
}

/// Whether a listen address names a port alone, as `:PORT` with one to
/// five ASCII digits worth at most 65535: it listens on every interface.
pub open spec fn port_only_addr(addr: Seq<char>) -> bool {
    &&& 2 <= addr.len() <= 6
    &&& addr[0] == ':'
    &&& all_digits(addr.skip(1))
    &&& digits_value(addr.skip(1)) <= 65535
}

/// `10` to the power `n`.
pub open spec fn pow10(n: nat) -> nat
    decreases n,
{
    if n == 0 {
        1
    } else {
        10 * pow10((n - 1) as nat)
    }
}

/// The port of a listen address written as `:PORT`, if it is one.
pub fn listen_port(addr: &str) -> (r: Option<u16>)
    ensures
        r is Some <==> port_only_addr(addr@),
        r matches Some(p) ==> p == digits_value(addr@.skip(1)),
{
    let v = chars_of(addr);
    if v.len() < 2 || v.len() > 6 || v[0] != ':' {
        return None;
    }
    proof {
        reveal_with_fuel(pow10, 7);
    }
    let mut value: u64 = 0;
    let mut i: usize = 1;
    assert(v@.subrange(1, 1) =~= Seq::<char>::empty());
    while i < v.len()
        invariant
            1 <= i <= v.len() <= 6,
            v@ == addr@,
            all_digits(v@.subrange(1, i as int)),
            value == digits_value(v@.subrange(1, i as int)),
            value < pow10((i - 1) as nat),
        decreases v.len() - i,
    {
        let c = v[i];
        if c < '0' || c > '9' {
            assert(!all_digits(addr@.skip(1))) by {
                assert(addr@.skip(1)[i - 1] == c);
            }
            return None;
        }
        let d = (c as u32) - ('0' as u32);
        proof {
            assert(v@.subrange(1, i + 1).drop_last() =~= v@.subrange(1, i as int));
            assert(pow10(i as nat) == 10 * pow10((i - 1) as nat));
            assert(i - 1 <= 4);
            assert(pow10((i - 1) as nat) <= 10000) by {
                reveal_with_fuel(pow10, 6);
            }
        }
        value = value * 10 + d as u64;
        i += 1;
    }
    assert(v@.subrange(1, v.len() as int) =~= addr@.skip(1));
    if value > 65535 {
        return None;
    }
    Some(value as u16)
}

/// One configured domain after trimming whitespace and trailing dots and
/// lowercasing ASCII letters.
pub open spec fn normalized_domain(d: Seq<char>) -> Seq<char> {
    ascii_lower_seq(trim_end_char(trim(d), '.'))
}

/// The non-empty entries of a list, in order.
pub open spec fn nonempty_only(s: Seq<Seq<char>>) -> Seq<Seq<char>>
    decreases s.len(),
{
    if s.len() == 0 {
        Seq::empty()
    } else if s.last().len() > 0 {
        nonempty_only(s.drop_last()).push(s.last())
    } else {
        nonempty_only(s.drop_last())
    }
}

/// The configured domains after normalization, empty entries dropped.
pub open spec fn normalized_domains(ds: Seq<Seq<char>>) -> Seq<Seq<char>> {
    nonempty_only(ds.map_values(|d: Seq<char>| normalized_domain(d)))
}

/// The configured custom events after trimming, empty entries dropped.
pub open spec fn normalized_events(es: Seq<Seq<char>>) -> Seq<Seq<char>> {
    nonempty_only(es.map_values(|e: Seq<char>| trim(e)))
}

pub open spec fn limits_error(l: LimitsConfig) -> Option<ConfigErrorView> {
    if l.max_paths == 0 {
        Some(ConfigErrorView::InvalidMaxPaths)
    } else if l.max_sources == 0 {
        Some(ConfigErrorView::InvalidMaxSources)
    } else if l.max_custom_events == 0 {
        Some(ConfigErrorView::InvalidMaxCustomEvents)
    } else if l.max_dimension_values == 0 {
        Some(ConfigErrorView::InvalidMaxDimensionValues)
    } else if l.max_property_keys == 0 {
        Some(ConfigErrorView::InvalidMaxPropertyKeys)
    } else if l.max_property_values == 0 {
        Some(ConfigErrorView::InvalidMaxPropertyValues)
    } else if l.max_events_per_minute == 0 {
        Some(ConfigErrorView::InvalidMaxEventsPerMinute)
    } else if l.max_metrics_per_minute == 0 {
        Some(ConfigErrorView::InvalidMaxMetricsPerMinute)
    } else {
        None
    }
}

pub open spec fn breakpoints_valid(b: DeviceBreakpoints) -> bool {
    b.mobile != 0 && b.tablet != 0 && b.mobile < b.tablet
}

/// The address that the `i`-th trusted proxy entry parsed to, if any.
pub open spec fn proxy_ip_at(ips: Seq<Option<ClientIp>>, i: int) -> Option<ClientIp> {
    if 0 <= i < ips.len() {
        ips[i]
    } else {
        None
    }
}

/// An entry is accepted when it parses as an IP network or an IP address.
pub open spec fn proxy_accepted(p: Seq<char>, ip: Option<ClientIp>) -> bool {
    ipnet_parse(p) is Some || ip is Some
}

/// The first trusted proxy entry at or after `i` that is neither a network
/// nor an address.
pub open spec fn proxies_error(ps: Seq<Seq<char>>, ips: Seq<Option<ClientIp>>, i: int) -> Option<
    ConfigErrorView,
>
    decreases ps.len() - i,
{
    if i < 0 || i >= ps.len() {
        None
    } else if !proxy_accepted(ps[i], proxy_ip_at(ips, i)) {
        Some(ConfigErrorView::InvalidTrustedProxy(ps[i]))
    } else {
        proxies_error(ps, ips, i + 1)
    }
}

pub open spec fn endpoint_char_allowed(c: char) -> bool {
    is_ascii_alphanumeric(c) || c == '-' || c == '.' || c == '_' || c == '~' || c == '/'
}

/// The error for an endpoint path that does not start with `/` or holds a
/// character other than ASCII letters, digits and `-._~/`.
pub open spec fn endpoint_path_error(field: Seq<char>, path: Seq<char>) -> Option<ConfigErrorView> {
    if !starts_with(path, seq!['/']) {
        Some(ConfigErrorView::InvalidServerPath(field))
    } else if exists|i: int| 0 <= i < path.len() && !endpoint_char_allowed(#[trigger] path[i]) {
        Some(ConfigErrorView::InvalidServerPathChars(field))
    } else {
        None
    }
}

/// The error for an endpoint path that collides with a built-in route.
pub open spec fn reserved_path_error(field: Seq<char>, path: Seq<char>) -> Option<ConfigErrorView> {
    if path == "/health"@ || path == "/web"@ || starts_with(path, "/web/"@) {
        Some(ConfigErrorView::ReservedServerPath(field, path))
    } else {
        None
    }
}

pub open spec fn first_of(a: Option<ConfigErrorView>, b: Option<ConfigErrorView>) -> Option<
    ConfigErrorView,
> {
    if a is Some {
        a
    } else {
        b
    }
}

/// The first failing check after the domain list is known to be non-empty,
/// in the order that `validate` runs them.
pub open spec fn checks_error(c: Config, a: AddressChecks) -> Option<ConfigErrorView> {
    if !unit_interval_bits(c.site.sampling_bits) {
        Some(ConfigErrorView::InvalidSampling)
    } else if limits_error(c.limits) is Some {
        limits_error(c.limits)
    } else if !a.listen_addr_is_socket_addr && !port_only_addr(c.server.listen_addr@) {
        Some(ConfigErrorView::InvalidListenAddr(c.server.listen_addr@))
    } else if !breakpoints_valid(c.limits.device_breakpoints) {
        Some(ConfigErrorView::InvalidDeviceBreakpoints)
    } else if c.security.metrics_auth.enabled && (c.security.metrics_auth.username@.len() == 0
        || c.security.metrics_auth.password@.len() == 0) {
        Some(ConfigErrorView::InvalidMetricsAuth)
    } else if c.security.cors.enabled && c.security.cors.allowed_origins@.len() == 0 {
        Some(ConfigErrorView::InvalidCors)
    } else {
        first_of(
            proxies_error(string_views(c.security.trusted_proxies@), a.trusted_proxy_ips@, 0),
            first_of(
                endpoint_path_error("metrics_path"@, c.server.metrics_path@),
                first_of(
                    endpoint_path_error("ingestion_path"@, c.server.ingestion_path@),
                    if c.server.metrics_path@ == c.server.ingestion_path@ {
                        Some(ConfigErrorView::DuplicateServerPath)
                    } else {
                        first_of(
                            reserved_path_error("metrics_path"@, c.server.metrics_path@),
                            reserved_path_error("ingestion_path"@, c.server.ingestion_path@),
                        )
                    },
                ),
            ),
        )
    }
}

fn push_string(v: &mut Vec<String>, s: String)
    ensures
        string_views(final(v)@) == string_views(old(v)@).push(s@),
{
    v.push(s);
    assert(string_views(v@) =~= string_views(old(v)@).push(s@));
}

fn normalize_domain_list(ds: &Vec<String>) -> (r: Vec<String>)
    ensures
        string_views(r@) == normalized_domains(string_views(ds@)),
{
    let ghost mapped = string_views(ds@).map_values(|d: Seq<char>| normalized_domain(d));
    let mut out: Vec<String> = Vec::new();
    let mut i: usize = 0;
    while i < ds.len()
        invariant
            i <= ds.len(),
            mapped == string_views(ds@).map_values(|d: Seq<char>| normalized_domain(d)),
            string_views(out@) == nonempty_only(mapped.take(i as int)),
        decreases ds.len() - i,
    {
        let v = chars_of(ds[i].as_str());
        let t = trim_chars(&v);
        let d = trim_end_char_chars(&t, '.');
        let l = lower_chars(&d);
        assert(mapped.take(i + 1).drop_last() =~= mapped.take(i as int));
        assert(mapped.take(i + 1).last() == l@);
        if l.len() > 0 {
            push_string(&mut out, string_of(&l));
        }
        i += 1;
    }
    assert(mapped.take(ds.len() as int) =~= mapped);
    out
}

fn normalize_event_list(es: &Vec<String>) -> (r: Vec<String>)
    ensures
        string_views(r@) == normalized_events(string_views(es@)),
{
    let ghost mapped = string_views(es@).map_values(|e: Seq<char>| trim(e));
    let mut out: Vec<String> = Vec::new();
    let mut i: usize = 0;
    while i < es.len()
        invariant
            i <= es.len(),
            mapped == string_views(es@).map_values(|e: Seq<char>| trim(e)),
            string_views(out@) == nonempty_only(mapped.take(i as int)),
        decreases es.len() - i,
    {
        let t = trim_str(es[i].as_str());
        assert(mapped.take(i + 1).drop_last() =~= mapped.take(i as int));
        assert(mapped.take(i + 1).last() == t@);
        if t.as_str().len() > 0 || !t.as_str().is_empty() {
            assert(t@.len() > 0);
            push_string(&mut out, t);
        }
        i += 1;
    }
    assert(mapped.take(es.len() as int) =~= mapped);
    out
}

fn check_limits(l: &LimitsConfig) -> (r: Result<(), ConfigError>)
    ensures
        match r {
            Ok(()) => limits_error(*l) is None,
            Err(e) => limits_error(*l) == Some(e@),
        },
{
    if l.max_paths == 0 {
        return Err(ConfigError::InvalidMaxPaths);
    }
    if l.max_sources == 0 {
        return Err(ConfigError::InvalidMaxSources);
    }
    if l.max_custom_events == 0 {
        return Err(ConfigError::InvalidMaxCustomEvents);
    }
    if l.max_dimension_values == 0 {
        return Err(ConfigError::InvalidMaxDimensionValues);
    }
    if l.max_property_keys == 0 {
        return Err(ConfigError::InvalidMaxPropertyKeys);
    }
    if l.max_property_values == 0 {
        return Err(ConfigError::InvalidMaxPropertyValues);
    }
    if l.max_events_per_minute == 0 {
        return Err(ConfigError::InvalidMaxEventsPerMinute);
    }
    if l.max_metrics_per_minute == 0 {
        return Err(ConfigError::InvalidMaxMetricsPerMinute);
    }
    Ok(())
}

fn check_proxies(ps: &Vec<String>, ips: &Vec<Option<ClientIp>>) -> (r: Result<(), ConfigError>)
    ensures
        match r {
            Ok(()) => proxies_error(string_views(ps@), ips@, 0) is None,
            Err(e) => proxies_error(string_views(ps@), ips@, 0) == Some(e@),
        },
{
    let ghost views = string_views(ps@);
    let mut i: usize = 0;
    while i < ps.len()
        invariant
            i <= ps.len(),
            views == string_views(ps@),
            proxies_error(views, ips@, 0) == proxies_error(views, ips@, i as int),
        decreases ps.len() - i,
    {
        let p = ps[i].as_str();
        let as_net = parse_ipnet(p);
        let as_ip = if i < ips.len() {
            ips[i]
        } else {
            None
        };
        assert(as_ip == proxy_ip_at(ips@, i as int));
        if as_net.is_none() && as_ip.is_none() {
            return Err(ConfigError::InvalidTrustedProxy(ps[i].clone()));
        }
        i += 1;
    }
    Ok(())
}

/// Checks that an endpoint path starts with `/` and uses only ASCII letters,
/// digits and `-._~/`.
pub fn validate_endpoint_path(field: &'static str, path: &str) -> (r: Result<(), ConfigError>)
    ensures
        match r {
            Ok(()) => endpoint_path_error(field@, path@) is None,
            Err(e) => endpoint_path_error(field@, path@) == Some(e@),
        },
{
    let v = chars_of(path);
    if !(v.len() > 0 && v[0] == '/') {
        proof {
            if starts_with(path@, seq!['/']) {
                assert(path@.subrange(0, 1)[0] == '/');
            }
        }
        return Err(ConfigError::InvalidServerPath { field });
    }
    assert(path@.subrange(0, 1) =~= seq!['/']);
    let mut i: usize = 0;
    while i < v.len()
        invariant
            i <= v.len(),
            v@ == path@,
            starts_with(path@, seq!['/']),
            forall|j: int| 0 <= j < i ==> endpoint_char_allowed(#[trigger] v@[j]),
        decreases v.len() - i,
    {
        let c = v[i];
        let ok = ('0' <= c && c <= '9') || ('a' <= c && c <= 'z') || ('A' <= c && c <= 'Z') || c
            == '-' || c == '.' || c == '_' || c == '~' || c == '/';
        if !ok {
            assert(!endpoint_char_allowed(path@[i as int]));
            assert(exists|j: int| 0 <= j < path@.len() && !endpoint_char_allowed(#[trigger] path@[j]));
            return Err(ConfigError::InvalidServerPathChars { field });
        }
        i += 1;
    }
    Ok(())
}

/// Rejects endpoint paths that collide with `/health` or the `/web` assets.
pub fn validate_reserved_endpoint_path(field: &'static str, path: &str) -> (r: Result<(), ConfigError>)
    ensures
        match r {
            Ok(()) => reserved_path_error(field@, path@) is None,
            Err(e) => reserved_path_error(field@, path@) == Some(e@),
        },
{
    let v = chars_of(path);
    if eq_str(&v, "/health") || eq_str(&v, "/web") || crate::text::starts_with_str(&v, "/web/") {
        Err(ConfigError::ReservedServerPath { field, path: crate::text::owned(path) })
    } else {
        Ok(())
    }
}

fn check_sampling(bits: u64) -> (r: bool)
    ensures
        r == unit_interval_bits(bits),
{
    bits <= ONE_BITS || bits == NEGATIVE_ZERO_BITS
}

fn check_after_domains(c: &Config, a: &AddressChecks) -> (r: Result<(), ConfigError>)
    ensures
        match r {
            Ok(()) => checks_error(*c, *a) is None,
            Err(e) => checks_error(*c, *a) == Some(e@),
        },
{
    if !check_sampling(c.site.sampling_bits) {
        return Err(ConfigError::InvalidSampling);
    }
    check_limits(&c.limits)?;
    if !a.listen_addr_is_socket_addr && listen_port(c.server.listen_addr.as_str()).is_none() {
        return Err(ConfigError::InvalidListenAddr(c.server.listen_addr.clone()));
    }
    let b = c.limits.device_breakpoints;
    if b.mobile == 0 || b.tablet == 0 || b.mobile >= b.tablet {
        return Err(ConfigError::InvalidDeviceBreakpoints);
    }
    if c.security.metrics_auth.enabled && (c.security.metrics_auth.username.as_str().is_empty()
        || c.security.metrics_auth.password.as_str().is_empty()) {
        return Err(ConfigError::InvalidMetricsAuth);
    }
    if c.security.cors.enabled && c.security.cors.allowed_origins.len() == 0 {
        return Err(ConfigError::InvalidCors);
    }
    check_proxies(&c.security.trusted_proxies, &a.trusted_proxy_ips)?;
    validate_endpoint_path("metrics_path", c.server.metrics_path.as_str())?;
    validate_endpoint_path("ingestion_path", c.server.ingestion_path.as_str())?;
    let m = chars_of(c.server.metrics_path.as_str());
    let g = chars_of(c.server.ingestion_path.as_str());
    if chars_eq(&m, &g) {
        return Err(ConfigError::DuplicateServerPath);
    }
    validate_reserved_endpoint_path("metrics_path", c.server.metrics_path.as_str())?;
    validate_reserved_endpoint_path("ingestion_path", c.server.ingestion_path.as_str())?;
    Ok(())
}

impl Config {
    /// Applies command-line overrides to the server settings.
    pub fn apply_overrides(&mut self, overrides: Overrides)
        ensures
            final(self).site == old(self).site,
            final(self).limits == old(self).limits,
            final(self).security == old(self).security,
            final(self).server.state_path == old(self).server.state_path,
            final(self).server.listen_addr@ == (match overrides.listen_addr {
                Some(s) => s@,
                None => old(self).server.listen_addr@,
            }),
            final(self).server.metrics_path@ == (match overrides.metrics_path {
                Some(s) => s@,
                None => old(self).server.metrics_path@,
            }),
            final(self).server.ingestion_path@ == (match overrides.ingestion_path {
                Some(s) => s@,
                None => old(self).server.ingestion_path@,
            }),
    {
        if let Some(listen_addr) = overrides.listen_addr {
            self.server.listen_addr = listen_addr;
        }
        if let Some(metrics_path) = overrides.metrics_path {
            self.server.metrics_path = metrics_path;
        }
        if let Some(ingestion_path) = overrides.ingestion_path {
            self.server.ingestion_path = ingestion_path;
        }
    }

    /// Normalizes and validates the configuration in place.
    ///
    /// Domains are trimmed, stripped of trailing dots and lowercased, and
    /// empty ones dropped; an empty list is `MissingDomains`. Custom event
    /// names are then trimmed and empty ones dropped, and the remaining checks
    /// run in order, the first failure being returned.
    pub fn validate(&mut self, addresses: &AddressChecks) -> (r: Result<(), ConfigError>)
        ensures
            string_views(final(self).site.domains@) == normalized_domains(
                string_views(old(self).site.domains@),
            ),
            final(self).site.salt_rotation == old(self).site.salt_rotation,
            final(self).site.sampling_bits == old(self).site.sampling_bits,
            final(self).site.collect == old(self).site.collect,
            final(self).site.path == old(self).site.path,
            final(self).limits == old(self).limits,
            final(self).server == old(self).server,
            final(self).security == old(self).security,
            normalized_domains(string_views(old(self).site.domains@)).len() == 0 ==> {
                &&& r matches Err(e) && e@ == ConfigErrorView::MissingDomains
                &&& final(self).site.custom_events == old(self).site.custom_events
            },
            normalized_domains(string_views(old(self).site.domains@)).len() > 0 ==> {
                &&& string_views(final(self).site.custom_events@) == normalized_events(
                    string_views(old(self).site.custom_events@),
                )
                &&& match r {
                    Ok(()) => checks_error(*old(self), *addresses) is None,
                    Err(e) => checks_error(*old(self), *addresses) == Some(e@),
                }
            },
    {
        let domains = normalize_domain_list(&self.site.domains);
        self.site.domains = domains;
        if self.site.domains.len() == 0 {
            return Err(ConfigError::MissingDomains);
        }
        let events = normalize_event_list(&self.site.custom_events);
        self.site.custom_events = events;
        check_after_domains(self, addresses)
    }
}


/// Configuration files looked for when none is given, in order.
pub open spec fn config_candidates() -> Seq<Seq<char>> {
    seq!["config.toml"@, "/etc/watchdog/config.toml"@]
}

/// The first candidate whose presence flag is set.
pub open spec fn first_present(candidates: Seq<Seq<char>>, present: Seq<bool>) -> Option<Seq<char>>
    decreases candidates.len(),
{
    if candidates.len() == 0 {
        None
    } else if present.len() > 0 && present[0] {
        Some(candidates[0])
    } else {
        first_present(candidates.drop_first(), if present.len() > 0 { present.drop_first() } else { present })
    }
}

/// The configuration files looked for when none is given, in order.
pub fn config_candidate_paths() -> (r: Vec<&'static str>)
    ensures
        r@.map_values(|s: &'static str| s@) == config_candidates(),
{
    let r = vec!["config.toml", "/etc/watchdog/config.toml"];
    assert(r@.map_values(|s: &'static str| s@) =~= config_candidates());
    r
}

/// The default configuration file: the first candidate that exists.
/// `present[i]` tells whether the `i`-th candidate exists.
pub fn default_config_path(present: &Vec<bool>) -> (r: Option<&'static str>)
    ensures
        match r {
            Some(p) => first_present(config_candidates(), present@) == Some(p@),
            None => first_present(config_candidates(), present@) is None,
        },
{
    let p0 = present.len() > 0 && present[0];
    let p1 = present.len() > 1 && present[1];
    proof {
        reveal_with_fuel(first_present, 3);
        assert(config_candidates().drop_first() =~= seq!["/etc/watchdog/config.toml"@]);
        assert(config_candidates().drop_first().drop_first() =~= Seq::<Seq<char>>::empty());
        if present@.len() > 0 {
            assert(present@.drop_first().len() > 0 ==> present@.drop_first()[0] == present@[1]);
        }
    }
    if p0 {
        Some("config.toml")
    } else if p1 {
        Some("/etc/watchdog/config.toml")
    } else {
        None
    }
}

} // verus!
