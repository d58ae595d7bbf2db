//! Request classification and admission rules of the HTTP endpoints.
use base64::Engine;
use subtle::ConstantTimeEq;
use vstd::prelude::*;

use vstd::hash_set::StringHashSet;

use crate::config::{proxy_ip_at, AuthConfig, CollectConfig, Config, DeviceBreakpoints, PathConfig, ReferrerMode};
use crate::metrics::{
    arity_ok, dimension_values_arity, lemma_arity_concat, observation_arity, tick_arity, label_values_of, observe_step, positive_finite_bits, scroll_bucket, admits, admitted_after, counter_labels, spent_after, DimensionLabels, increments_view, observation, other_label, other_string, sanitize_label, sanitized, tick, Counter,
    Increment, Metrics, ONE_BITS,
};
use crate::net::{ipnet_parse, net_contains, parse_ipnet, proxy_contains, ClientIp, ProxyNet};
use crate::normalize::{
    extract_referrer_domain, extract_referrer_url, normalize_path, referrer_domain_label,
    referrer_url_label, PathNormalizer,
};
use crate::event::{last_value, lookup, pair_views, sorted_keys, Event, EventError};
use crate::uniques::{inserted_into, opt_view, visitor_element};
use crate::ratelimit::{check_step, IpRateLimiter, Window, MINUTE_NANOS};
use crate::limits::MAX_METRICS_RESPONSE_SIZE;
use crate::registry::BoundedRegistry;
use crate::normalize::split_chars;
use crate::text::{
    ascii_lower_seq, chars_of, contains, contains_str, ends_with, ends_with_str, eq_str,
    has_char, lower_chars, owned, push_char, push_str, split, split_once, split_once_chars,
    starts_with, starts_with_str, string_of, string_of_range, trim, trim_str,
};

verus! {

// ---------------------------------------------------------------------------
// User-agent and screen classification
// ---------------------------------------------------------------------------
/// Device class from user agent, viewport width and breakpoints.
pub open spec fn device_class(width: u16, ua: Seq<char>, bp: DeviceBreakpoints) -> Seq<char> {
    let l = ascii_lower_seq(ua);
    if contains(l, "tablet"@) || contains(l, "ipad"@) || (contains(l, "android"@) && !contains(
        l,
        "mobile"@,
    )) {
        "tablet"@
    } else if contains(l, "mobile"@) || contains(l, "iphone"@) || contains(l, "ipod"@) || contains(
        l,
        "windows phone"@,
    ) || contains(l, "blackberry"@) {
        "mobile"@
    } else if width > 0 {
        if width < bp.mobile {
            "mobile"@
        } else if width < bp.tablet {
            "tablet"@
        } else {
            "desktop"@
        }
    } else if ua.len() == 0 {
        "unknown"@
    } else {
        "desktop"@
    }
}

/// Classifies the device from the user agent, falling back to the viewport
/// width.
pub fn classify_device(width: u16, user_agent: &str, breakpoints: DeviceBreakpoints) -> (r: String)
    ensures
        r@ == device_class(width, user_agent@, breakpoints),
{
    let ua = lower_chars(&chars_of(user_agent));
    if contains_str(&ua, "tablet") || contains_str(&ua, "ipad") || (contains_str(&ua, "android")
        && !contains_str(&ua, "mobile")) {
        return owned("tablet");
    }
    if contains_str(&ua, "mobile") || contains_str(&ua, "iphone") || contains_str(&ua, "ipod")
        || contains_str(&ua, "windows phone") || contains_str(&ua, "blackberry") {
        return owned("mobile");
    }
    if width > 0 {
        if width < breakpoints.mobile {
            return owned("mobile");
        }
        if width < breakpoints.tablet {
            return owned("tablet");
        }
        return owned("desktop");
    }
    if user_agent.is_empty() {
        owned("unknown")
    } else {
        owned("desktop")
    }
}

/// Screen class from the viewport width.
pub open spec fn screen_class(width: u16, bp: DeviceBreakpoints) -> Seq<char> {
    if width == 0 {
        "unknown"@
    } else if width < bp.mobile {
        "mobile"@
    } else if width < bp.tablet {
        "tablet"@
    } else if width >= 1440 {
        "wide"@
    } else {
        "desktop"@
    }
}

/// Classifies the screen from the viewport width.
pub fn classify_screen(width: u16, breakpoints: DeviceBreakpoints) -> (r: String)
    ensures
        r@ == screen_class(width, breakpoints),
{
    if width == 0 {
        return owned("unknown");
    }
    if width < breakpoints.mobile {
        return owned("mobile");
    }
    if width < breakpoints.tablet {
        return owned("tablet");
    }
    if width >= 1440 {
        return owned("wide");
    }
    owned("desktop")
}

/// Browser family from the user agent.
pub open spec fn browser_class(ua: Seq<char>) -> Seq<char> {
    let l = ascii_lower_seq(ua);
    if l.len() == 0 {
        "unknown"@
    } else if contains(l, "bot"@) || contains(l, "crawler"@) || contains(l, "spider"@) {
        "bot"@
    } else if contains(l, "edg/"@) || contains(l, "edge/"@) {
        "edge"@
    } else if contains(l, "opr/"@) || contains(l, "opera"@) {
        "opera"@
    } else if contains(l, "firefox/"@) || contains(l, "fxios/"@) {
        "firefox"@
    } else if contains(l, "chrome/"@) || contains(l, "crios/"@) || contains(l, "chromium/"@) {
        "chrome"@
    } else if contains(l, "safari/"@) {
        "safari"@
    } else {
        "other"@
    }
}

/// Classifies the browser family from the user agent.
pub fn classify_browser(user_agent: &str) -> (r: String)
    ensures
        r@ == browser_class(user_agent@),
{
    let ua = lower_chars(&chars_of(user_agent));
    if ua.len() == 0 {
        return owned("unknown");
    }
    if contains_str(&ua, "bot") || contains_str(&ua, "crawler") || contains_str(&ua, "spider") {
        return owned("bot");
    }
    if contains_str(&ua, "edg/") || contains_str(&ua, "edge/") {
        return owned("edge");
    }
    if contains_str(&ua, "opr/") || contains_str(&ua, "opera") {
        return owned("opera");
    }
    if contains_str(&ua, "firefox/") || contains_str(&ua, "fxios/") {
        return owned("firefox");
    }
    if contains_str(&ua, "chrome/") || contains_str(&ua, "crios/") || contains_str(
        &ua,
        "chromium/",
    ) {
        return owned("chrome");
    }
    if contains_str(&ua, "safari/") {
        return owned("safari");
    }
    owned("other")
}

/// Operating system family from the user agent.
pub open spec fn os_class(ua: Seq<char>) -> Seq<char> {
    let l = ascii_lower_seq(ua);
    if l.len() == 0 {
        "unknown"@
    } else if contains(l, "windows"@) {
        "windows"@
    } else if contains(l, "android"@) {
        "android"@
    } else if contains(l, "iphone"@) || contains(l, "ipad"@) || contains(l, "ipod"@) {
        "ios"@
    } else if contains(l, "mac os"@) || contains(l, "macintosh"@) {
        "macos"@
    } else if contains(l, "linux"@) || contains(l, "x11"@) {
        "linux"@
    } else {
        "other"@
    }
}

/// Classifies the operating system family from the user agent.
pub fn classify_os(user_agent: &str) -> (r: String)
    ensures
        r@ == os_class(user_agent@),
{
    let ua = lower_chars(&chars_of(user_agent));
    if ua.len() == 0 {
        return owned("unknown");
    }
    if contains_str(&ua, "windows") {
        return owned("windows");
    }
    if contains_str(&ua, "android") {
        return owned("android");
    }
    if contains_str(&ua, "iphone") || contains_str(&ua, "ipad") || contains_str(&ua, "ipod") {
        return owned("ios");
    }
    if contains_str(&ua, "mac os") || contains_str(&ua, "macintosh") {
        return owned("macos");
    }
    if contains_str(&ua, "linux") || contains_str(&ua, "x11") {
        return owned("linux");
    }
    owned("other")
}

// ---------------------------------------------------------------------------
// Event names
// ---------------------------------------------------------------------------
pub open spec fn click_id_param(key: Seq<char>) -> bool {
    ||| key == "gclid"@
    ||| key == "gbraid"@
    ||| key == "wbraid"@
    ||| key == "fbclid"@
    ||| key == "msclkid"@
    ||| key == "ttclid"@
    ||| key == "twclid"@
    ||| key == "li_fat_id"@
}

/// Whether a query parameter name is an advertising click identifier.
pub fn is_click_id_param(key: &str) -> (r: bool)
    ensures
        r == click_id_param(key@),
{
    let k = chars_of(key);
    eq_str(&k, "gclid") || eq_str(&k, "gbraid") || eq_str(&k, "wbraid") || eq_str(&k, "fbclid")
        || eq_str(&k, "msclkid") || eq_str(&k, "ttclid") || eq_str(&k, "twclid") || eq_str(
        &k,
        "li_fat_id",
    )
}

/// A missing or `pageview` (ASCII case-insensitively) event name.
pub open spec fn pageview_event(name: Seq<char>) -> bool {
    let t = crate::text::trim(name);
    t.len() == 0 || ascii_lower_seq(t) == "pageview"@
}

/// Whether an event name denotes a pageview.
pub fn is_pageview_event(event_name: &str) -> (r: bool)
    ensures
        r == pageview_event(event_name@),
{
    let t = crate::text::trim_chars(&chars_of(event_name));
    t.len() == 0 || eq_str(&lower_chars(&t), "pageview")
}

pub open spec fn system_event(name: Seq<char>) -> bool {
    ||| name == "engagement"@
    ||| name == "Outbound Link: Click"@
    ||| name == "Cloaked Link: Click"@
    ||| name == "File Download"@
    ||| name == "404"@
    ||| name == "WP Form Completions"@
    ||| name == "Form: Submission"@
}

/// Whether an event name is one the beacon emits on its own.
pub fn is_system_event(event_name: &str) -> (r: bool)
    ensures
        r == system_event(event_name@),
{
    let n = chars_of(event_name);
    eq_str(&n, "engagement") || eq_str(&n, "Outbound Link: Click") || eq_str(
        &n,
        "Cloaked Link: Click",
    ) || eq_str(&n, "File Download") || eq_str(&n, "404") || eq_str(&n, "WP Form Completions")
        || eq_str(&n, "Form: Submission")
}

/// Sets `target` to the trimmed value unless it is already set.
pub fn set_once(target: &mut Option<String>, value: &str)
    ensures
        match *old(target) {
            Some(s) => *final(target) == Some(s),
            None => final(target)@ matches Some(s) && s@ == crate::text::trim(value@),
        },
{
    if target.is_none() {
        *target = Some(crate::text::trim_str(value));
    }
}

// ---------------------------------------------------------------------------
// Metrics endpoint credentials
// ---------------------------------------------------------------------------
/// `subtle::ConstantTimeEq::ct_eq` on lengths, read back with `bool::from`:
/// true exactly when they are equal.
#[verifier::external_body]
fn ct_eq_usize(a: usize, b: usize) -> (r: bool)
    ensures
        r == (a == b),
{
    bool::from(a.ct_eq(&b))
}

/// `subtle::ConstantTimeEq::ct_eq` on bytes, read back with `bool::from`:
/// true exactly when they are equal.
#[verifier::external_body]
fn ct_eq_u8(a: u8, b: u8) -> (r: bool)
    ensures
        r == (a == b),
{
    bool::from(a.ct_eq(&b))
}

/// `subtle::Choice` conjunction (`&`), read back with `bool::from`.
#[verifier::external_body]
fn ct_and(a: bool, b: bool) -> (r: bool)
    ensures
        r == (a && b),
{
    bool::from(subtle::Choice::from(u8::from(a)) & subtle::Choice::from(u8::from(b)))
}

pub open spec fn byte_or_zero(s: Seq<u8>, i: int) -> u8 {
    if 0 <= i < s.len() {
        s[i]
    } else {
        0
    }
}

proof fn lemma_or_xor_zero(d: u8, a: u8, b: u8)
    ensures
        ((d | (a ^ b)) == 0u8) == (d == 0u8 && a == b),
{
    assert(((d | (a ^ b)) == 0u8) == (d == 0u8 && a == b)) by (bit_vector);
}

/// Compares two byte strings without an early exit on the first difference.
pub fn constant_time_equal(expected: &[u8], provided: &[u8]) -> (r: bool)
    ensures
        r == (expected@ == provided@),
{
    let lengths_equal = ct_eq_usize(expected.len(), provided.len());
    let max_len = if expected.len() > provided.len() {
        expected.len()
    } else {
        provided.len()
    };
    let mut diff: u8 = 0;
    let mut index: usize = 0;
    while index < max_len
        invariant
            index <= max_len,
            max_len == if expected@.len() > provided@.len() {
                expected@.len()
            } else {
                provided@.len()
            },
            (diff == 0) == (forall|j: int|
                0 <= j < index ==> byte_or_zero(expected@, j) == byte_or_zero(provided@, j)),
        decreases max_len - index,
    {
        let left = if index < expected.len() {
            expected[index]
        } else {
            0
        };
        let right = if index < provided.len() {
            provided[index]
        } else {
            0
        };
        assert(left == byte_or_zero(expected@, index as int));
        assert(right == byte_or_zero(provided@, index as int));
        proof {
            lemma_or_xor_zero(diff, left, right);
        }
        let ghost old_diff = diff;
        diff = diff | (left ^ right);
        proof {
            if diff == 0 {
                assert forall|j: int| 0 <= j < index + 1 implies byte_or_zero(expected@, j)
                    == byte_or_zero(provided@, j) by {
                    if j < index {
                        assert(old_diff == 0);
                    }
                }
            } else {
                if old_diff != 0 {
                    let w = choose|j: int|
                        !(0 <= j < index ==> byte_or_zero(expected@, j) == byte_or_zero(
                            provided@,
                            j,
                        ));
                    assert(0 <= w < index + 1 && byte_or_zero(expected@, w) != byte_or_zero(provided@, w));
                } else {
                    assert(byte_or_zero(expected@, index as int) != byte_or_zero(
                        provided@,
                        index as int,
                    ));
                }
            }
        }
        index += 1;
    }
    let no_difference = ct_eq_u8(diff, 0);
    proof {
        if lengths_equal && no_difference {
            assert forall|j: int| 0 <= j < expected@.len() implies expected@[j] == provided@[j] by {
                assert(byte_or_zero(expected@, j) == byte_or_zero(provided@, j));
            }
            assert(expected@ =~= provided@);
        }
        if expected@ == provided@ {
            assert forall|j: int| 0 <= j < max_len implies byte_or_zero(expected@, j)
                == byte_or_zero(provided@, j) by {}
        }
    }
    ct_and(lengths_equal, no_difference)
}

/// What the standard base64 engine (`base64::engine::general_purpose::STANDARD`)
/// decodes a string to, `None` when it rejects it.
pub uninterp spec fn base64_standard_decode(s: Seq<char>) -> Option<Seq<u8>>;

/// Decodes standard base64 with the `base64` crate.
#[verifier::external_body]
fn base64_decode(s: &str) -> (r: Option<Vec<u8>>)
    ensures
        match r {
            Some(v) => base64_standard_decode(s@) == Some(v@),
            None => base64_standard_decode(s@) is None,
        },
{
    base64::engine::general_purpose::STANDARD.decode(s).ok()
}

/// `String::from_utf8`: succeeds exactly on valid UTF-8, with the decoded
/// characters.
#[verifier::external_body]
fn string_from_utf8(bytes: Vec<u8>) -> (r: Option<String>)
    ensures
        r is Some <==> vstd::utf8::valid_utf8(bytes@),
        r matches Some(s) ==> s@ == vstd::utf8::decode_utf8(bytes@),
{
    String::from_utf8(bytes).ok()
}

/// `username:password` as configured.
pub open spec fn expected_credentials(auth: AuthConfig) -> Seq<char> {
    auth.username@ + seq![':'] + auth.password@
}

/// Whether a request may read the metrics, given its `Authorization` header
/// (when present and readable as text).
pub open spec fn metrics_access(auth: AuthConfig, header: Option<Seq<char>>) -> bool {
    if !auth.enabled {
        true
    } else {
        match header {
            None => false,
            Some(h) => starts_with(h, "Basic "@) && match base64_standard_decode(h.skip(6)) {
                None => false,
                Some(bytes) => vstd::utf8::valid_utf8(bytes) && {
                    let credentials = vstd::utf8::decode_utf8(bytes);
                    let (user, pass) = split_once(credentials, ':');
                    pass is Some && expected_credentials(auth) == user + seq![':'] + pass->0
                },
            },
        }
    }
}

/// Checks HTTP Basic credentials for the metrics endpoint in constant time.
pub fn metrics_authorized(auth: &AuthConfig, authorization: Option<&str>) -> (r: bool)
    ensures
        r == metrics_access(*auth, match authorization {
            Some(h) => Some(h@),
            None => None,
        }),
{
    if !auth.enabled {
        return true;
    }
    let header = match authorization {
        Some(h) => h,
        None => return false,
    };
    let v = chars_of(header);
    proof {
        reveal_strlit("Basic ");
    }
    if !starts_with_str(&v, "Basic ") {
        return false;
    }
    let encoded = string_of_range(&v, 6, v.len());
    assert(encoded@ =~= header@.skip(6));
    let decoded = match base64_decode(encoded.as_str()) {
        Some(d) => d,
        None => return false,
    };
    let credentials = match string_from_utf8(decoded) {
        Some(c) => c,
        None => return false,
    };
    let cv = chars_of(credentials.as_str());
    let (user, pass) = split_once_chars(&cv, ':');
    let pass = match pass {
        Some(p) => p,
        None => return false,
    };
    let mut expected = String::new();
    push_str(&mut expected, auth.username.as_str());
    push_char(&mut expected, ':');
    push_str(&mut expected, auth.password.as_str());
    let mut provided = string_of(&user);
    push_char(&mut provided, ':');
    let pass_string = string_of(&pass);
    push_str(&mut provided, pass_string.as_str());
    assert(expected@ =~= expected_credentials(*auth));
    assert(provided@ =~= user@ + seq![':'] + pass@);
    let same = constant_time_equal(expected.as_str().as_bytes(), provided.as_str().as_bytes());
    proof {
        broadcast use vstd::utf8::encode_utf8_decode_utf8;

        if vstd::utf8::encode_utf8(expected@) == vstd::utf8::encode_utf8(provided@) {
            assert(vstd::utf8::decode_utf8(vstd::utf8::encode_utf8(expected@))
                == vstd::utf8::decode_utf8(vstd::utf8::encode_utf8(provided@)));
        }
    }
    same
}

// ---------------------------------------------------------------------------
// Embedded assets
// ---------------------------------------------------------------------------
/// Why a path segment is refused, if it is.
pub open spec fn segment_refusal(seg: Seq<char>) -> Option<Seq<char>> {
    let l = ascii_lower_seq(seg);
    if seg.len() == 0 || seg == "."@ || seg == ".."@ {
        Some("invalid_path"@)
    } else if starts_with(seg, "."@) {
        Some("dotfile"@)
    } else if contains(l, ".env"@) || contains(l, "config"@) || ends_with(l, ".bak"@) || ends_with(
        l,
        "~"@,
    ) {
        Some("sensitive_file"@)
    } else {
        None
    }
}

/// The first refused segment's reason, scanning left to right.
pub open spec fn segments_refusal(segs: Seq<Seq<char>>) -> Option<Seq<char>>
    decreases segs.len(),
{
    if segs.len() == 0 {
        None
    } else if segment_refusal(segs[0]) is Some {
        segment_refusal(segs[0])
    } else {
        segments_refusal(segs.drop_first())
    }
}

/// Index of the last `.` in `s`, or -1.
pub open spec fn last_dot(s: Seq<char>) -> int
    decreases s.len(),
{
    if s.len() == 0 {
        -1
    } else if s.last() == '.' {
        s.len() - 1
    } else {
        last_dot(s.drop_last())
    }
}

/// `Path::extension` of a file name: the text after the last `.`, unless
/// that dot starts the name or there is none (or the name is `..`).
pub open spec fn file_extension(name: Seq<char>) -> Option<Seq<char>> {
    if name == ".."@ || last_dot(name) <= 0 {
        None
    } else {
        Some(name.skip(last_dot(name) + 1))
    }
}

/// Why an embedded asset path is refused, if it is.
pub open spec fn asset_refusal(path: Seq<char>) -> Option<Seq<char>> {
    if path.len() == 0 || ends_with(path, "/"@) {
        Some("directory_listing"@)
    } else if segments_refusal(split(path, '/')) is Some {
        segments_refusal(split(path, '/'))
    } else {
        match file_extension(split(path, '/').last()) {
            Some(e) => if e == "js"@ || e == "html"@ || e == "css"@ {
                None
            } else {
                Some("invalid_extension"@)
            },
            None => Some("invalid_extension"@),
        }
    }
}

fn segment_check(seg: &Vec<char>) -> (r: Option<&'static str>)
    ensures
        match r {
            Some(e) => segment_refusal(seg@) == Some(e@),
            None => segment_refusal(seg@) is None,
        },
{
    if seg.len() == 0 || eq_str(seg, ".") || eq_str(seg, "..") {
        return Some("invalid_path");
    }
    if starts_with_str(seg, ".") {
        return Some("dotfile");
    }
    let l = lower_chars(seg);
    if contains_str(&l, ".env") || contains_str(&l, "config") || ends_with_str(&l, ".bak")
        || ends_with_str(&l, "~") {
        return Some("sensitive_file");
    }
    None
}

fn last_dot_index(s: &Vec<char>) -> (r: Option<usize>)
    ensures
        match r {
            Some(i) => last_dot(s@) == i && i < s@.len(),
            None => last_dot(s@) == -1,
        },
{
    let mut k = s.len();
    assert(s@.take(s@.len() as int) =~= s@);
    while k > 0
        invariant
            k <= s.len(),
            last_dot(s@) == last_dot(s@.take(k as int)),
        decreases k,
    {
        assert(s@.take(k as int).drop_last() =~= s@.take(k - 1));
        if s[k - 1] == '.' {
            return Some(k - 1);
        }
        k -= 1;
    }
    None
}

/// Rejects embedded asset paths that list directories, traverse, reach
/// dotfiles or sensitive files, or are not scripts, pages or stylesheets.
pub fn validate_asset_path(path: &str) -> (r: Result<(), &'static str>)
    ensures
        match r {
            Ok(()) => asset_refusal(path@) is None,
            Err(e) => asset_refusal(path@) == Some(e@),
        },
{
    let v = chars_of(path);
    if v.len() == 0 || ends_with_str(&v, "/") {
        return Err("directory_listing");
    }
    let segments = split_chars(&v, '/');
    let ghost segs = crate::normalize::views(segments@);
    assert(segs.skip(0) =~= segs);
    let mut i: usize = 0;
    while i < segments.len()
        invariant
            i <= segments.len(),
            segs == crate::normalize::views(segments@),
            segs == split(path@, '/'),
            !(path@.len() == 0 || ends_with(path@, "/"@)),
            segments_refusal(segs) == segments_refusal(segs.skip(i as int)),
        decreases segments.len() - i,
    {
        let ghost rest = segs.skip(i as int);
        assert(rest[0] == segments@[i as int]@);
        assert(rest.drop_first() =~= segs.skip(i + 1));
        match segment_check(&segments[i]) {
            Some(reason) => {
                return Err(reason);
            },
            None => {},
        }
        i += 1;
    }
    assert(segs.skip(segments.len() as int) =~= Seq::<Seq<char>>::empty());
    proof {
        crate::text::lemma_split_nonempty(path@, '/');
    }
    let last = &segments[segments.len() - 1];
    assert(last@ == segs.last());
    let extension = if eq_str(last, "..") {
        None
    } else {
        match last_dot_index(last) {
            Some(d) => {
                if d > 0 {
                    assert(d < last@.len());
                    assert(d < last.len());
                    Some(crate::text::slice_chars(last, d + 1, last.len()))
                } else {
                    None
                }
            },
            None => None,
        }
    };
    match extension {
        Some(e) => {
            assert(e@ =~= segs.last().skip(last_dot(segs.last()) + 1));
            if eq_str(&e, "js") || eq_str(&e, "html") || eq_str(&e, "css") {
                Ok(())
            } else {
                Err("invalid_extension")
            }
        },
        None => Err("invalid_extension"),
    }
}


// ---------------------------------------------------------------------------
// Application state
// ---------------------------------------------------------------------------
/// Text of the error `std::net::IpAddr`'s parser reports.
pub open spec fn invalid_ip_reason() -> Seq<char> {
    "invalid IP address syntax"@
}

/// Errors returned while constructing application state.
#[derive(Debug)]
pub enum AppError {
    /// A trusted proxy entry is neither an IP network nor an IP address.
    TrustedProxy { value: String, reason: String },
}

/// The network a single address stands for: the address with a full-length
/// prefix.
pub open spec fn host_net(ip: ClientIp) -> ProxyNet {
    match ip {
        ClientIp::V4(_) => ProxyNet { addr: ip, prefix_len: 32 },
        ClientIp::V6(_) => ProxyNet { addr: ip, prefix_len: 128 },
    }
}

/// The network a trusted proxy entry stands for: the network it parses to,
/// else the address it parses to as a single-host network.
pub open spec fn proxy_net(p: Seq<char>, ip: Option<ClientIp>) -> Option<ProxyNet> {
    match ipnet_parse(p) {
        Some(n) => Some(n),
        None => match ip {
            Some(a) => Some(host_net(a)),
            None => None,
        },
    }
}

/// Parses trusted proxy networks; an entry that is not a network is read as
/// a single address (`addresses[i]` is what the `i`-th entry parses to as an
/// IP address, if anything).
pub fn parse_trusted_proxies(values: &Vec<String>, addresses: &Vec<Option<ClientIp>>) -> (r: Result<
    Vec<ProxyNet>,
    AppError,
>)
    ensures
        match r {
            Ok(nets) => {
                &&& nets@.len() == values@.len()
                &&& nets_valid(nets@)
                &&& forall|i: int|
                    0 <= i < values@.len() ==> proxy_net(
                        #[trigger] values@[i]@,
                        proxy_ip_at(addresses@, i),
                    ) == Some(nets@[i])
            },
            Err(AppError::TrustedProxy { value, reason }) => exists|i: int|
                0 <= i < values@.len() && value@ == values@[i]@ && reason@ == invalid_ip_reason()
                    && proxy_net(#[trigger] values@[i]@, proxy_ip_at(addresses@, i)) is None
                    && forall|j: int|
                    0 <= j < i ==> proxy_net(#[trigger] values@[j]@, proxy_ip_at(addresses@, j))
                        is Some,
        },
        (forall|i: int|
            0 <= i < values@.len() ==> proxy_net(#[trigger] values@[i]@, proxy_ip_at(addresses@, i))
                is Some) ==> r is Ok,
{
    let mut nets: Vec<ProxyNet> = Vec::new();
    let mut i: usize = 0;
    while i < values.len()
        invariant
            i <= values.len(),
            nets@.len() == i,
            nets_valid(nets@),
            forall|j: int|
                0 <= j < i ==> proxy_net(#[trigger] values@[j]@, proxy_ip_at(addresses@, j)) == Some(
                    nets@[j],
                ),
        decreases values.len() - i,
    {
        let as_ip = if i < addresses.len() {
            addresses[i]
        } else {
            None
        };
        assert(as_ip == proxy_ip_at(addresses@, i as int));
        match parse_ipnet(values[i].as_str()) {
            Some(net) => {
                nets.push(net);
            },
            None => match as_ip {
                Some(ClientIp::V4(a)) => {
                    nets.push(ProxyNet { addr: ClientIp::V4(a), prefix_len: 32 });
                },
                Some(ClientIp::V6(a)) => {
                    nets.push(ProxyNet { addr: ClientIp::V6(a), prefix_len: 128 });
                },
                None => {
                    let reason = owned("invalid IP address syntax");
                    proof {
                        reveal_strlit("invalid IP address syntax");
                    }
                    return Err(
                        AppError::TrustedProxy {
                            value: string_of(&chars_of(values[i].as_str())),
                            reason,
                        },
                    );
                },
            },
        }
        i += 1;
    }
    Ok(nets)
}

/// Whether a network parsed from configuration is well formed.
pub open spec fn nets_valid(nets: Seq<ProxyNet>) -> bool {
    forall|i: int| 0 <= i < nets.len() ==> (#[trigger] nets[i]).valid()
}

/// Whether an address lies in one of the trusted networks.
pub open spec fn trusted(nets: Seq<ProxyNet>, ip: ClientIp) -> bool {
    exists|i: int| 0 <= i < nets.len() && net_contains(#[trigger] nets[i], ip)
}

/// The last forwarded address that is not a trusted proxy, scanning
/// `X-Forwarded-For` from its end.
pub open spec fn last_untrusted(nets: Seq<ProxyNet>, forwarded: Seq<Option<ClientIp>>) -> Option<
    ClientIp,
>
    decreases forwarded.len(),
{
    if forwarded.len() == 0 {
        None
    } else {
        match forwarded.last() {
            Some(ip) if !trusted(nets, ip) => Some(ip),
            _ => last_untrusted(nets, forwarded.drop_last()),
        }
    }
}

/// The client address of a request: the peer, unless the peer is a trusted
/// proxy, in which case the last untrusted `X-Forwarded-For` entry, else an
/// untrusted `X-Real-IP`, else the peer.
pub open spec fn client_address(
    nets: Seq<ProxyNet>,
    forwarded: Option<Seq<Option<ClientIp>>>,
    real_ip: Option<ClientIp>,
    remote: ClientIp,
) -> ClientIp {
    if nets.len() == 0 || !trusted(nets, remote) {
        remote
    } else {
        match forwarded {
            Some(f) if last_untrusted(nets, f) is Some => last_untrusted(nets, f)->0,
            _ => match real_ip {
                Some(ip) if !trusted(nets, ip) => ip,
                _ => remote,
            },
        }
    }
}

/// A limiter of `limit` requests per minute and address that has seen no
/// address yet.
pub open spec fn fresh_limiter(l: IpRateLimiter, limit: u32) -> bool {
    &&& l.limit() == limit
    &&& l.window() == MINUTE_NANOS
    &&& l.state().v4 == Map::<u32, Window>::empty()
    &&& l.state().v6 == Map::<u128, Window>::empty()
}

/// A limiter of `limit` requests per minute and address, or none when the
/// limit is zero.
pub fn rate_limiter(limit: u32) -> (r: Option<IpRateLimiter>)
    ensures
        limit == 0 ==> r is None,
        limit > 0 ==> (r matches Some(l) && l.limit() == limit && l.window() == MINUTE_NANOS
            && l.state().v4 == Map::<u32, Window>::empty() && l.state().v6 == Map::<
            u128,
            Window,
        >::empty()),
{
    if limit == 0 {
        None
    } else {
        Some(IpRateLimiter::per_minute(limit))
    }
}

/// Shared application state used by the HTTP handlers.
pub struct AppState {
    config: Config,
    allowed_domains: StringHashSet,
    allowed_events: StringHashSet,
    trusted_proxies: Vec<ProxyNet>,
    ingestion_limiter: Option<IpRateLimiter>,
    metrics_limiter: Option<IpRateLimiter>,
    path_normalizer: PathNormalizer,
    path_registry: BoundedRegistry,
    referrer_registry: BoundedRegistry,
    custom_event_registry: BoundedRegistry,
    dimension_registry: BoundedRegistry,
    property_key_registry: BoundedRegistry,
    property_value_registry: BoundedRegistry,
    metrics: Metrics,
}

/// The set of views of a list of strings.
pub open spec fn view_set(v: Seq<String>) -> Set<Seq<char>> {
    Set::new(|s: Seq<char>| exists|i: int| 0 <= i < v.len() && #[trigger] v[i]@ == s)
}

/// The set of sanitized views of a list of strings.
pub open spec fn sanitized_set(v: Seq<String>) -> Set<Seq<char>> {
    Set::new(|s: Seq<char>| exists|i: int| 0 <= i < v.len() && sanitized(#[trigger] v[i]@) == s)
}

impl AppState {
    /// The runtime configuration.
    pub closed spec fn spec_config(&self) -> Config {
        self.config
    }

    /// Site domains events are accepted for.
    pub closed spec fn domains(&self) -> Set<Seq<char>> {
        self.allowed_domains@
    }

    /// Sanitized custom event names allowed (empty: all).
    pub closed spec fn events(&self) -> Set<Seq<char>> {
        self.allowed_events@
    }

    /// Trusted proxy networks.
    pub closed spec fn proxies(&self) -> Seq<ProxyNet> {
        self.trusted_proxies@
    }

    /// The ingestion rate limiter, if enabled.
    pub closed spec fn ingestion_limiter(&self) -> Option<IpRateLimiter> {
        self.ingestion_limiter
    }

    /// The metrics-endpoint rate limiter, if enabled.
    pub closed spec fn metrics_limiter(&self) -> Option<IpRateLimiter> {
        self.metrics_limiter
    }

    /// Path normalization rules.
    pub closed spec fn path_rules(&self) -> PathConfig {
        self.path_normalizer.config
    }

    pub closed spec fn paths(&self) -> BoundedRegistry {
        self.path_registry
    }

    pub closed spec fn referrers(&self) -> BoundedRegistry {
        self.referrer_registry
    }

    pub closed spec fn custom_events(&self) -> BoundedRegistry {
        self.custom_event_registry
    }

    pub closed spec fn dimensions(&self) -> BoundedRegistry {
        self.dimension_registry
    }

    pub closed spec fn property_keys(&self) -> BoundedRegistry {
        self.property_key_registry
    }

    pub closed spec fn property_values(&self) -> BoundedRegistry {
        self.property_value_registry
    }

    /// The metrics recorder.
    pub closed spec fn recorder(&self) -> Metrics {
        self.metrics
    }

    /// Collection flags.
    pub open spec fn collect(&self) -> CollectConfig {
        self.spec_config().site.collect
    }

    /// Builds application state from configuration; `proxy_addresses[i]` is
    /// what the `i`-th trusted proxy entry parses to as an IP address.
    pub fn new(config: Config, proxy_addresses: &Vec<Option<ClientIp>>) -> (r: Result<Self, AppError>)
        ensures
            (forall|i: int|
                0 <= i < config.security.trusted_proxies@.len() ==> proxy_net(
                    #[trigger] config.security.trusted_proxies@[i]@,
                    proxy_ip_at(proxy_addresses@, i),
                ) is Some) <==> r is Ok,
            r matches Ok(s) ==> {
                &&& s.spec_config() == config
                &&& s.wf()
                &&& s.domains() == view_set(config.site.domains@)
                &&& s.events() == sanitized_set(config.site.custom_events@)
                &&& s.proxies().len() == config.security.trusted_proxies@.len()
                &&& forall|i: int|
                    0 <= i < s.proxies().len() ==> proxy_net(
                        config.security.trusted_proxies@[i]@,
                        proxy_ip_at(proxy_addresses@, i),
                    ) == Some(#[trigger] s.proxies()[i])
                &&& s.path_rules() == config.site.path
                &&& s.paths().values() == Set::<Seq<char>>::empty()
                &&& s.paths().capacity() == config.limits.max_paths
                &&& s.referrers().values() == Set::<Seq<char>>::empty()
                &&& s.referrers().capacity() == config.limits.max_sources
                &&& s.custom_events().values() == Set::<Seq<char>>::empty()
                &&& s.custom_events().capacity() == config.limits.max_custom_events
                &&& s.dimensions().values() == Set::<Seq<char>>::empty()
                &&& s.dimensions().capacity() == config.limits.max_dimension_values
                &&& s.property_keys().values() == Set::<Seq<char>>::empty()
                &&& s.property_keys().capacity() == config.limits.max_property_keys
                &&& s.property_values().values() == Set::<Seq<char>>::empty()
                &&& s.property_values().capacity() == config.limits.max_property_values
                &&& (config.limits.max_events_per_minute == 0 <==> s.ingestion_limiter() is None)
                &&& (config.limits.max_metrics_per_minute == 0 <==> s.metrics_limiter() is None)
                &&& (s.ingestion_limiter() matches Some(l) ==> fresh_limiter(l, config.limits.max_events_per_minute))
                &&& (s.metrics_limiter() matches Some(l) ==> fresh_limiter(l, config.limits.max_metrics_per_minute))
                &&& s.recorder().collect() == config.site.collect
                &&& s.recorder().admitted() == Set::<Seq<char>>::empty()
                &&& s.recorder().spent() == 0
                &&& (config.site.salt_rotation is None ==> s.recorder().estimator() is None)
                &&& (config.site.salt_rotation matches Some(rot) ==> s.recorder().estimator() matches Some(u)
                    && u.rotation() == rot && u.visitors() == Set::<u32>::empty())
            },
    {
        let mut allowed_domains = StringHashSet::new();
        let mut i: usize = 0;
        while i < config.site.domains.len()
            invariant
                i <= config.site.domains.len(),
                allowed_domains@ == view_set(config.site.domains@.take(i as int)),
            decreases config.site.domains.len() - i,
        {
            allowed_domains.insert(string_of(&chars_of(config.site.domains[i].as_str())));
            assert(allowed_domains@ =~= view_set(config.site.domains@.take(i + 1))) by {
                let t = config.site.domains@.take(i + 1);
                assert forall|s: Seq<char>| view_set(t).contains(s) implies allowed_domains@.contains(s) by {
                    let k = choose|k: int| 0 <= k < t.len() && #[trigger] t[k]@ == s;
                    if k < i {
                        assert(config.site.domains@.take(i as int)[k]@ == s);
                    }
                }
                assert forall|s: Seq<char>| allowed_domains@.contains(s) implies view_set(t).contains(s) by {
                    if s != config.site.domains@[i as int]@ {
                        let k = choose|k: int| 0 <= k < i && #[trigger] config.site.domains@.take(i as int)[k]@ == s;
                        assert(t[k]@ == s);
                    } else {
                        assert(t[i as int]@ == s);
                    }
                }
            }
            i += 1;
        }
        assert(config.site.domains@.take(config.site.domains.len() as int) =~= config.site.domains@);
        let mut allowed_events = StringHashSet::new();
        let mut j: usize = 0;
        while j < config.site.custom_events.len()
            invariant
                j <= config.site.custom_events.len(),
                allowed_events@ == sanitized_set(config.site.custom_events@.take(j as int)),
            decreases config.site.custom_events.len() - j,
        {
            allowed_events.insert(sanitize_label(config.site.custom_events[j].as_str()));
            assert(allowed_events@ =~= sanitized_set(config.site.custom_events@.take(j + 1))) by {
                let t = config.site.custom_events@.take(j + 1);
                assert forall|s: Seq<char>| sanitized_set(t).contains(s) implies allowed_events@.contains(s) by {
                    let k = choose|k: int| 0 <= k < t.len() && sanitized(#[trigger] t[k]@) == s;
                    if k < j {
                        assert(sanitized(config.site.custom_events@.take(j as int)[k]@) == s);
                    }
                }
                assert forall|s: Seq<char>| allowed_events@.contains(s) implies sanitized_set(t).contains(s) by {
                    if s != sanitized(config.site.custom_events@[j as int]@) {
                        let k = choose|k: int| 0 <= k < j && sanitized(#[trigger] config.site.custom_events@.take(j as int)[k]@) == s;
                        assert(sanitized(t[k]@) == s);
                    } else {
                        assert(sanitized(t[j as int]@) == s);
                    }
                }
            }
            j += 1;
        }
        assert(config.site.custom_events@.take(config.site.custom_events.len() as int) =~= config.site.custom_events@);
        let trusted_proxies = match parse_trusted_proxies(&config.security.trusted_proxies, proxy_addresses) {
            Ok(nets) => nets,
            Err(e) => return Err(e),
        };
        let metrics = Metrics::new(&config);
        Ok(AppState {
            allowed_domains,
            allowed_events,
            trusted_proxies,
            ingestion_limiter: rate_limiter(config.limits.max_events_per_minute),
            metrics_limiter: rate_limiter(config.limits.max_metrics_per_minute),
            path_normalizer: PathNormalizer::new(config.site.path),
            path_registry: BoundedRegistry::new(config.limits.max_paths),
            referrer_registry: BoundedRegistry::new(config.limits.max_sources),
            custom_event_registry: BoundedRegistry::new(config.limits.max_custom_events),
            dimension_registry: BoundedRegistry::new(config.limits.max_dimension_values),
            property_key_registry: BoundedRegistry::new(config.limits.max_property_keys),
            property_value_registry: BoundedRegistry::new(config.limits.max_property_values),
            metrics,
            config,
        })
    }

    /// Returns the runtime configuration backing this state.
    pub fn config(&self) -> (r: &Config)
        ensures
            *r == self.spec_config(),
    {
        &self.config
    }

    /// Returns the metrics recorder.
    pub fn metrics(&self) -> (r: &Metrics)
        ensures
            *r == self.recorder(),
    {
        &self.metrics
    }

    /// Returns the metrics recorder for updates.
    pub fn metrics_mut(&mut self) -> (r: &mut Metrics)
        ensures
            *r == old(self).recorder(),
            final(self).recorder() == *final(r),
            final(self).spec_config() == old(self).spec_config(),
    {
        &mut self.metrics
    }

    /// Returns the path used for persisted unique visitor state.
    pub fn state_path(&self) -> (r: &str)
        ensures
            r@ == self.spec_config().server.state_path@,
    {
        self.config.server.state_path.as_str()
    }
}


impl AppState {
    /// Everything configured at construction is as in `o`.
    pub open spec fn same_setup(&self, o: &Self) -> bool {
        &&& self.spec_config() == o.spec_config()
        &&& self.domains() == o.domains()
        &&& self.events() == o.events()
        &&& self.proxies() == o.proxies()
        &&& self.path_rules() == o.path_rules()
    }

    /// Both rate limiters are as in `o`.
    pub open spec fn same_limiters(&self, o: &Self) -> bool {
        &&& self.ingestion_limiter() == o.ingestion_limiter()
        &&& self.metrics_limiter() == o.metrics_limiter()
    }

    /// The trusted networks are well formed and the recorder collects what
    /// the configuration says.
    pub open spec fn wf(&self) -> bool {
        &&& nets_valid(self.proxies())
        &&& self.recorder().collect() == self.collect()
    }

    /// Whether an address belongs to a trusted proxy network.
    pub fn is_trusted_ip(&self, ip: ClientIp) -> (r: bool)
        requires
            self.wf(),
        ensures
            r == trusted(self.proxies(), ip),
    {
        let mut i: usize = 0;
        while i < self.trusted_proxies.len()
            invariant
                i <= self.trusted_proxies@.len(),
                nets_valid(self.trusted_proxies@),
                forall|j: int| 0 <= j < i ==> !net_contains(#[trigger] self.trusted_proxies@[j], ip),
            decreases self.trusted_proxies.len() - i,
        {
            if proxy_contains(&self.trusted_proxies[i], ip) {
                return true;
            }
            i += 1;
        }
        false
    }

    /// The client address of a request. `forwarded` holds the
    /// `X-Forwarded-For` entries in header order, each as the address it
    /// parses to (if any), or is `None` when the header is absent or not
    /// text; `real_ip` is the address `X-Real-IP` parses to, if any.
    pub fn client_ip(
        &self,
        forwarded: Option<&Vec<Option<ClientIp>>>,
        real_ip: Option<ClientIp>,
        remote_ip: ClientIp,
    ) -> (r: ClientIp)
        requires
            self.wf(),
        ensures
            r == client_address(
                self.proxies(),
                match forwarded {
                    Some(f) => Some(f@),
                    None => None,
                },
                real_ip,
                remote_ip,
            ),
    {
        if self.trusted_proxies.len() == 0 || !self.is_trusted_ip(remote_ip) {
            return remote_ip;
        }
        match forwarded {
            Some(entries) => {
                let mut i: usize = entries.len();
                assert(entries@.take(entries@.len() as int) =~= entries@);
                while i > 0
                    invariant
                        i <= entries@.len(),
                        self.wf(),
                        self.proxies().len() > 0,
                        trusted(self.proxies(), remote_ip),
                        forwarded == Some(entries),
                        last_untrusted(self.proxies(), entries@) == last_untrusted(
                            self.proxies(),
                            entries@.take(i as int),
                        ),
                    decreases i,
                {
                    assert(entries@.take(i as int).drop_last() =~= entries@.take(i - 1));
                    assert(entries@.take(i as int).last() == entries@[i - 1]);
                    match entries[i - 1] {
                        Some(ip) => {
                            if !self.is_trusted_ip(ip) {
                                return ip;
                            }
                        },
                        None => {},
                    }
                    i -= 1;
                }
                assert(entries@.take(0) =~= Seq::<Option<ClientIp>>::empty());
            },
            None => {},
        }
        match real_ip {
            Some(ip) => {
                if !self.is_trusted_ip(ip) {
                    return ip;
                }
            },
            None => {},
        }
        remote_ip
    }
}

/// Whether a registry takes a value: it holds it already, or has room.
pub open spec fn accepts(reg: BoundedRegistry, v: Seq<char>) -> bool {
    reg.values().contains(v) || reg.values().len() < reg.capacity()
}

/// `after` is `before` once `v` was offered to it.
pub open spec fn offered_to(after: BoundedRegistry, before: BoundedRegistry, v: Seq<char>) -> bool {
    &&& after.capacity() == before.capacity()
    &&& after.values() == if accepts(before, v) {
        before.values().insert(v)
    } else {
        before.values()
    }
}

fn offer(reg: &mut BoundedRegistry, v: &str) -> (accepted: bool)
    ensures
        accepted == accepts(*old(reg), v@),
        offered_to(*final(reg), *old(reg), v@),
{
    proof {
        let before = reg.values();
        if before.contains(v@) {
            assert(before.insert(v@) =~= before);
        }
    }
    reg.add(v)
}

/// Normalizes an event path and admits it to the path registry; a path the
/// full registry refuses becomes `other` and counts as a path overflow.
pub fn admit_path(state: &mut AppState, event_path: &str, out: &mut Vec<Increment>) -> (r: String)
    ensures
        arity_ok(increments_view(old(out)@), old(state).collect()) ==> arity_ok(
            increments_view(final(out)@),
            old(state).collect(),
        ),
        final(state).same_setup(old(state)),
        final(state).same_limiters(old(state)),
        final(state).recorder() == old(state).recorder(),
        final(state).referrers() == old(state).referrers(),
        final(state).custom_events() == old(state).custom_events(),
        final(state).dimensions() == old(state).dimensions(),
        final(state).property_keys() == old(state).property_keys(),
        final(state).property_values() == old(state).property_values(),
        ({
            let n = normalize_path(old(state).path_rules(), event_path@);
            &&& offered_to(final(state).paths(), old(state).paths(), n)
            &&& if accepts(old(state).paths(), n) {
                r@ == n && final(out)@ == old(out)@
            } else {
                r@ == other_label() && increments_view(final(out)@) == increments_view(old(out)@)
                    + tick(Counter::PathOverflow)
            }
        }),
{
    let normalized = state.path_normalizer.normalize(event_path);
    if offer(&mut state.path_registry, normalized.as_str()) {
        return normalized;
    }
    state.metrics.record_path_overflow(out);
    other_string()
}

/// The label a referrer candidate falls back to when none can be extracted.
pub open spec fn or_other(o: Option<Seq<char>>) -> Seq<char> {
    match o {
        Some(s) => s,
        None => other_label(),
    }
}

/// The referrer label before its registry admission, under the configured
/// referrer mode.
pub open spec fn referrer_candidate(mode: ReferrerMode, referrer: Seq<char>, event_domain: Seq<char>) -> Option<
    Seq<char>,
> {
    match mode {
        ReferrerMode::Off => None,
        ReferrerMode::Domain => Some(
            sanitized(or_other(referrer_domain_label(referrer, event_domain))),
        ),
        ReferrerMode::Url => Some(sanitized(or_other(referrer_url_label(referrer, event_domain)))),
    }
}

/// Builds the referrer label: `direct` and `internal` pass, other labels
/// are admitted to the referrer registry or collapse to `other` (counted as
/// a referrer overflow).
pub fn referrer_label(state: &mut AppState, referrer: &str, event_domain: &str, out: &mut Vec<Increment>) -> (r: Option<String>)
    ensures
        arity_ok(increments_view(old(out)@), old(state).collect()) ==> arity_ok(
            increments_view(final(out)@),
            old(state).collect(),
        ),
        final(state).same_setup(old(state)),
        final(state).same_limiters(old(state)),
        final(state).recorder() == old(state).recorder(),
        final(state).paths() == old(state).paths(),
        final(state).custom_events() == old(state).custom_events(),
        final(state).dimensions() == old(state).dimensions(),
        final(state).property_keys() == old(state).property_keys(),
        final(state).property_values() == old(state).property_values(),
        match referrer_candidate(old(state).collect().referrer, referrer@, event_domain@) {
            None => r is None && final(state).referrers() == old(state).referrers() && final(out)@
                == old(out)@,
            Some(label) => if label == "direct"@ || label == "internal"@ {
                r matches Some(v) && v@ == label && final(state).referrers() == old(state).referrers()
                    && final(out)@ == old(out)@
            } else {
                &&& offered_to(final(state).referrers(), old(state).referrers(), label)
                &&& if accepts(old(state).referrers(), label) {
                    r matches Some(v) && v@ == label && final(out)@ == old(out)@
                } else {
                    r matches Some(v) && v@ == other_label() && increments_view(final(out)@)
                        == increments_view(old(out)@) + tick(Counter::ReferrerOverflow)
                }
            },
        },
{
    let extracted = match state.config.site.collect.referrer {
        ReferrerMode::Off => {
            return None;
        },
        ReferrerMode::Domain => extract_referrer_domain(referrer, event_domain),
        ReferrerMode::Url => extract_referrer_url(referrer, event_domain),
    };
    let raw = match extracted {
        Some(l) => l,
        None => other_string(),
    };
    let label = sanitize_label(raw.as_str());
    let l = chars_of(label.as_str());
    if eq_str(&l, "direct") || eq_str(&l, "internal") {
        return Some(label);
    }
    if offer(&mut state.referrer_registry, label.as_str()) {
        Some(label)
    } else {
        state.metrics.record_referrer_overflow(out);
        Some(other_string())
    }
}

/// Labels that never count against a dimension's registry.
pub open spec fn reserved_label(v: Seq<char>) -> bool {
    v == "direct"@ || v == "internal"@ || v == "none"@ || v == "unknown"@ || v == other_label()
}

/// A dimension value before admission: the sanitized trimmed value, or the
/// fallback when it is absent or blank.
pub open spec fn dimension_candidate(value: Option<Seq<char>>, fallback: Seq<char>) -> Seq<char> {
    match value {
        Some(v) if crate::text::trim(v).len() > 0 => sanitized(crate::text::trim(v)),
        _ => fallback,
    }
}

/// The registry key of a dimension value: `dimension=value`.
pub open spec fn dimension_key(dimension: Seq<char>, value: Seq<char>) -> Seq<char> {
    dimension + seq!['='] + value
}

/// Bounds one dimension value: reserved labels pass, other values are
/// admitted to the dimension registry under `dimension=value`, or collapse
/// to `other` (counted as an overflow of the dimension).
pub fn bounded_dimension(
    state: &mut AppState,
    dimension: &'static str,
    value: Option<String>,
    fallback: &'static str,
    out: &mut Vec<Increment>,
) -> (r: String)
    ensures
        arity_ok(increments_view(old(out)@), old(state).collect()) ==> arity_ok(
            increments_view(final(out)@),
            old(state).collect(),
        ),
        final(state).same_setup(old(state)),
        final(state).same_limiters(old(state)),
        final(state).paths() == old(state).paths(),
        final(state).referrers() == old(state).referrers(),
        final(state).custom_events() == old(state).custom_events(),
        final(state).property_keys() == old(state).property_keys(),
        final(state).property_values() == old(state).property_values(),
        ({
            let v = dimension_candidate(opt_view(value), fallback@);
            let key = dimension_key(dimension@, v);
            if reserved_label(v) {
                &&& r@ == v
                &&& final(state).dimensions() == old(state).dimensions()
                &&& final(state).recorder() == old(state).recorder()
                &&& final(out)@ == old(out)@
            } else {
                &&& offered_to(final(state).dimensions(), old(state).dimensions(), key)
                &&& if accepts(old(state).dimensions(), key) {
                    &&& r@ == v
                    &&& final(state).recorder() == old(state).recorder()
                    &&& final(out)@ == old(out)@
                } else {
                    let d = seq![sanitized(dimension@)];
                    &&& r@ == other_label()
                    &&& final(state).recorder().offered(
                        &old(state).recorder(),
                        Counter::DimensionOverflow,
                        d,
                    )
                    &&& increments_view(final(out)@) == increments_view(old(out)@) + observation(
                        Counter::DimensionOverflow,
                        d,
                        ONE_BITS,
                        old(state).recorder().takes(Counter::DimensionOverflow, d),
                    )
                }
            }
        }),
{
    let ghost cand = dimension_candidate(opt_view(value), fallback@);
    let v = match value {
        Some(raw) => {
            let t = crate::text::trim_str(raw.as_str());
            if t.as_str().is_empty() {
                owned(fallback)
            } else {
                sanitize_label(t.as_str())
            }
        },
        None => owned(fallback),
    };
    assert(v@ == cand);
    let vc = chars_of(v.as_str());
    proof {
        reveal_strlit("other");
        assert("other"@ =~= other_label());
    }
    if eq_str(&vc, "direct") || eq_str(&vc, "internal") || eq_str(&vc, "none") || eq_str(
        &vc,
        "unknown",
    ) || eq_str(&vc, "other") {
        assert(reserved_label(cand));
        return v;
    }
    assert(!reserved_label(cand));
    let mut key = String::new();
    push_str(&mut key, dimension);
    push_char(&mut key, '=');
    push_str(&mut key, v.as_str());
    assert(key@ =~= dimension_key(dimension@, cand));
    if offer(&mut state.dimension_registry, key.as_str()) {
        v
    } else {
        state.metrics.record_dimension_overflow(dimension, out);
        other_string()
    }
}

/// An event name as a label: its sanitized trimmed form.
pub open spec fn event_label(name: Seq<char>) -> Seq<char> {
    sanitized(crate::text::trim(name))
}

/// Bounds a non-pageview event name: names outside a non-empty allow-list
/// (system events aside) are dropped; system events pass; other names are
/// admitted to the custom event registry or collapse to `other` (counted as
/// an event overflow).
pub fn bounded_event_label(state: &mut AppState, event_name: &str, out: &mut Vec<Increment>) -> (r: Option<String>)
    ensures
        arity_ok(increments_view(old(out)@), old(state).collect()) ==> arity_ok(
            increments_view(final(out)@),
            old(state).collect(),
        ),
        final(state).same_setup(old(state)),
        final(state).same_limiters(old(state)),
        final(state).recorder() == old(state).recorder(),
        final(state).paths() == old(state).paths(),
        final(state).referrers() == old(state).referrers(),
        final(state).dimensions() == old(state).dimensions(),
        final(state).property_keys() == old(state).property_keys(),
        final(state).property_values() == old(state).property_values(),
        beacon_event_name(event_name@) ==> (r matches Some(v) && v@ == event_name@),
        ({
            let n = event_label(event_name@);
            if !system_event(n) && old(state).events().len() > 0 && !old(state).events().contains(n) {
                r is None && final(state).custom_events() == old(state).custom_events()
                    && final(out)@ == old(out)@
            } else if system_event(n) {
                r matches Some(v) && v@ == n && final(state).custom_events() == old(
                    state,
                ).custom_events() && final(out)@ == old(out)@
            } else {
                &&& offered_to(final(state).custom_events(), old(state).custom_events(), n)
                &&& if accepts(old(state).custom_events(), n) {
                    r matches Some(v) && v@ == n && final(out)@ == old(out)@
                } else {
                    r matches Some(v) && v@ == other_label() && increments_view(final(out)@)
                        == increments_view(old(out)@) + tick(Counter::EventOverflow)
                }
            }
        }),
{
    proof {
        if beacon_event_name(event_name@) {
            beacon_events_pass_the_allow_list(event_name@);
        }
    }
    let name = sanitize_label(crate::text::trim_str(event_name).as_str());
    let system = is_system_event(name.as_str());
    if !system && state.allowed_events.len() != 0 && !state.allowed_events.contains(name.as_str()) {
        return None;
    }
    if system {
        return Some(name);
    }
    if offer(&mut state.custom_event_registry, name.as_str()) {
        Some(name)
    } else {
        state.metrics.record_event_overflow(out);
        Some(other_string())
    }
}


// ---------------------------------------------------------------------------
// Acquisition labels
// ---------------------------------------------------------------------------
/// What `url::Url::parse` gives for a string: `None` when it does not parse
/// as an absolute URL, else the URL's query (if it has one).
pub uninterp spec fn url_query_of(input: Seq<char>) -> Option<Option<Seq<char>>>;

/// `url::Url::parse` followed by `Url::query`: `None` when the input does
/// not parse, else the query of the parsed URL.
#[verifier::external_body]
fn url_query(input: &str) -> (r: Option<Option<String>>)
    ensures
        match r {
            Some(q) => url_query_of(input@) == Some(opt_view(q)),
            None => url_query_of(input@) is None,
        },
{
    match url::Url::parse(input) {
        Ok(url) => Some(url.query().map(|q| q.to_owned())),
        Err(_) => None,
    }
}

/// The query of a page URL: the parsed URL's query when it parses,
/// else the text after the first `?` of the part before the first `#`.
pub open spec fn query_of(input: Seq<char>) -> Option<Seq<char>> {
    match url_query_of(input) {
        Some(q) => q,
        None => split_once(split_once(input, '#').0, '?').1,
    }
}

/// Extracts the query string of a page URL or path.
pub fn query_string(input: &str) -> (r: Option<String>)
    ensures
        opt_view(r) == query_of(input@),
{
    match url_query(input) {
        Some(q) => q,
        None => {
            let v = chars_of(input);
            let (path, _) = split_once_chars(&v, '#');
            let (_, query) = split_once_chars(&path, '?');
            match query {
                Some(q) => Some(string_of(&q)),
                None => None,
            }
        },
    }
}

/// The name-value pairs `url::form_urlencoded::parse` decodes from a query.
pub uninterp spec fn form_pairs_of(query: Seq<char>) -> Seq<(Seq<char>, Seq<char>)>;

/// `url::form_urlencoded::parse` on the query's bytes: the decoded
/// name-value pairs, in order.
#[verifier::external_body]
fn form_pairs(query: &str) -> (r: Vec<(String, String)>)
    ensures
        pair_views(r@) == form_pairs_of(query@),
{
    url::form_urlencoded::parse(query.as_bytes()).map(|(k, v)| (k.into_owned(), v.into_owned())).collect()
}

/// Whether a decoded pair sets the parameter `name`: a non-blank value
/// under that lowercase name.
pub open spec fn sets_param(pair: (Seq<char>, Seq<char>), name: Seq<char>) -> bool {
    trim(pair.1).len() > 0 && ascii_lower_seq(pair.0) == name
}

/// The first non-blank value of a parameter, trimmed.
pub open spec fn first_param(pairs: Seq<(Seq<char>, Seq<char>)>, name: Seq<char>) -> Option<Seq<char>>
    decreases pairs.len(),
{
    if pairs.len() == 0 {
        None
    } else {
        match first_param(pairs.drop_last(), name) {
            Some(v) => Some(v),
            None => if sets_param(pairs.last(), name) {
                Some(trim(trim(pairs.last().1)))
            } else {
                None
            },
        }
    }
}

/// Whether a decoded pair names a click identifier with a non-blank value.
pub open spec fn sets_click_id(pair: (Seq<char>, Seq<char>)) -> bool {
    trim(pair.1).len() > 0 && click_id_param(ascii_lower_seq(pair.0))
}

/// The lowercase name of the first click identifier parameter.
pub open spec fn first_click_id(pairs: Seq<(Seq<char>, Seq<char>)>) -> Option<Seq<char>>
    decreases pairs.len(),
{
    if pairs.len() == 0 {
        None
    } else {
        match first_click_id(pairs.drop_last()) {
            Some(v) => Some(v),
            None => if sets_click_id(pairs.last()) {
                Some(trim(ascii_lower_seq(pairs.last().0)))
            } else {
                None
            },
        }
    }
}

/// Acquisition dimensions read from a page URL and its referrer.
pub struct AcquisitionLabels {
    pub referrer_source: Option<String>,
    pub utm_source: Option<String>,
    pub utm_medium: Option<String>,
    pub utm_campaign: Option<String>,
    pub utm_content: Option<String>,
    pub utm_term: Option<String>,
    pub click_id: Option<String>,
}

/// The decoded query pairs of a page URL (none without a query).
pub open spec fn query_pairs(url: Seq<char>) -> Seq<(Seq<char>, Seq<char>)> {
    match query_of(url) {
        Some(q) => form_pairs_of(q),
        None => Seq::empty(),
    }
}

fn set_param(target: &mut Option<String>, value: &str)
    ensures
        opt_view(*old(target)) is Some ==> *final(target) == *old(target),
        opt_view(*old(target)) is None ==> opt_view(*final(target)) == Some(trim(value@)),
{
    set_once(target, value);
}

/// Reads the referrer source, the first UTM parameters and the first click
/// identifier of a page URL.
pub fn acquisition_labels(url: &str, referrer: &str, event_domain: &str) -> (r: AcquisitionLabels)
    ensures
        opt_view(r.referrer_source) == referrer_domain_label(referrer@, event_domain@),
        opt_view(r.utm_source) == first_param(query_pairs(url@), "utm_source"@),
        opt_view(r.utm_medium) == first_param(query_pairs(url@), "utm_medium"@),
        opt_view(r.utm_campaign) == first_param(query_pairs(url@), "utm_campaign"@),
        opt_view(r.utm_content) == first_param(query_pairs(url@), "utm_content"@),
        opt_view(r.utm_term) == first_param(query_pairs(url@), "utm_term"@),
        opt_view(r.click_id) == first_click_id(query_pairs(url@)),
{
    let mut labels = AcquisitionLabels {
        referrer_source: extract_referrer_domain(referrer, event_domain),
        utm_source: None,
        utm_medium: None,
        utm_campaign: None,
        utm_content: None,
        utm_term: None,
        click_id: None,
    };
    let pairs = match query_string(url) {
        Some(q) => form_pairs(q.as_str()),
        None => Vec::new(),
    };
    let ghost ps = pair_views(pairs@);
    assert(ps == query_pairs(url@));
    let mut i: usize = 0;
    while i < pairs.len()
        invariant
            i <= pairs.len(),
            ps == pair_views(pairs@),
            opt_view(labels.referrer_source) == referrer_domain_label(referrer@, event_domain@),
            opt_view(labels.utm_source) == first_param(ps.take(i as int), "utm_source"@),
            opt_view(labels.utm_medium) == first_param(ps.take(i as int), "utm_medium"@),
            opt_view(labels.utm_campaign) == first_param(ps.take(i as int), "utm_campaign"@),
            opt_view(labels.utm_content) == first_param(ps.take(i as int), "utm_content"@),
            opt_view(labels.utm_term) == first_param(ps.take(i as int), "utm_term"@),
            opt_view(labels.click_id) == first_click_id(ps.take(i as int)),
        decreases pairs.len() - i,
    {
        let ghost t = ps.take(i + 1);
        assert(t.drop_last() =~= ps.take(i as int));
        assert(t.last() == ps[i as int]);
        let value = trim_str(pairs[i].1.as_str());
        if !value.as_str().is_empty() {
            let key = string_of(&lower_chars(&chars_of(pairs[i].0.as_str())));
            let k = chars_of(key.as_str());
            // A name matches at most one of these, so each test stands alone.
            if eq_str(&k, "utm_source") {
                set_param(&mut labels.utm_source, value.as_str());
            }
            if eq_str(&k, "utm_medium") {
                set_param(&mut labels.utm_medium, value.as_str());
            }
            if eq_str(&k, "utm_campaign") {
                set_param(&mut labels.utm_campaign, value.as_str());
            }
            if eq_str(&k, "utm_content") {
                set_param(&mut labels.utm_content, value.as_str());
            }
            if eq_str(&k, "utm_term") {
                set_param(&mut labels.utm_term, value.as_str());
            }
            if is_click_id_param(key.as_str()) {
                set_param(&mut labels.click_id, key.as_str());
            }
        }
        i += 1;
    }
    assert(ps.take(pairs.len() as int) =~= ps);
    labels
}


// ---------------------------------------------------------------------------
// Dimension labels of an event
// ---------------------------------------------------------------------------
/// A dimension request: the dimension's name, the value offered and the
/// fallback for a blank value.
pub type DimensionRequest = (&'static str, Option<String>, &'static str);

/// The dimension name and candidate value of an enabled request.
pub open spec fn request_view(r: Option<DimensionRequest>) -> Option<(Seq<char>, Seq<char>)> {
    match r {
        Some((d, v, f)) => Some((d@, dimension_candidate(opt_view(v), f@))),
        None => None,
    }
}

pub open spec fn requests_view(v: Seq<Option<DimensionRequest>>) -> Seq<Option<(Seq<char>, Seq<char>)>> {
    v.map_values(|r: Option<DimensionRequest>| request_view(r))
}

pub open spec fn opt_views(v: Seq<Option<String>>) -> Seq<Option<Seq<char>>> {
    v.map_values(|o: Option<String>| opt_view(o))
}

/// Bounding a series of dimension requests in order, threading the
/// dimension registry's values, the series budget and the increments: the
/// results (`None` for a disabled request), the registry values, the
/// admitted series keys, the spent bytes and the increments recorded.
pub open spec fn dim_fold(
    dims: Set<Seq<char>>,
    cap: nat,
    admitted: Set<Seq<char>>,
    spent: nat,
    collect: CollectConfig,
    reqs: Seq<Option<(Seq<char>, Seq<char>)>>,
) -> (Seq<Option<Seq<char>>>, Set<Seq<char>>, Set<Seq<char>>, nat, Seq<(Counter, Seq<Seq<char>>, u64)>)
    decreases reqs.len(),
{
    if reqs.len() == 0 {
        (Seq::empty(), dims, admitted, spent, Seq::empty())
    } else {
        let prev = dim_fold(dims, cap, admitted, spent, collect, reqs.drop_last());
        match reqs.last() {
            None => (prev.0.push(None), prev.1, prev.2, prev.3, prev.4),
            Some((dimension, cand)) => {
                let key = dimension_key(dimension, cand);
                if reserved_label(cand) {
                    (prev.0.push(Some(cand)), prev.1, prev.2, prev.3, prev.4)
                } else if prev.1.contains(key) || prev.1.len() < cap {
                    (prev.0.push(Some(cand)), prev.1.insert(key), prev.2, prev.3, prev.4)
                } else {
                    let d = seq![sanitized(dimension)];
                    let c = Counter::DimensionOverflow;
                    let names = counter_labels(c, collect);
                    (
                        prev.0.push(Some(other_label())),
                        prev.1,
                        admitted_after(prev.2, prev.3, c.spec_name(), names, d),
                        spent_after(prev.2, prev.3, c.spec_name(), names, d),
                        prev.4 + observation(
                            c,
                            d,
                            ONE_BITS,
                            admits(prev.2, prev.3, c.spec_name(), names, d),
                        ),
                    )
                }
            },
        }
    }
}

/// `dim_fold` from a state's registry and recorder.
pub open spec fn dims_from(state: AppState, reqs: Seq<Option<(Seq<char>, Seq<char>)>>) -> (
    Seq<Option<Seq<char>>>,
    Set<Seq<char>>,
    Set<Seq<char>>,
    nat,
    Seq<(Counter, Seq<Seq<char>>, u64)>,
) {
    dim_fold(
        state.dimensions().values(),
        state.dimensions().capacity(),
        state.recorder().admitted(),
        state.recorder().spent(),
        state.collect(),
        reqs,
    )
}

/// Bounds the enabled dimension requests in order.
pub fn bound_dimensions(state: &mut AppState, reqs: Vec<Option<DimensionRequest>>, out: &mut Vec<Increment>) -> (r: Vec<Option<String>>)
    requires
        old(state).wf(),
    ensures
        arity_ok(increments_view(old(out)@), old(state).collect()) ==> arity_ok(
            increments_view(final(out)@),
            old(state).collect(),
        ),
        final(state).same_setup(old(state)),
        final(state).same_limiters(old(state)),
        final(state).paths() == old(state).paths(),
        final(state).referrers() == old(state).referrers(),
        final(state).custom_events() == old(state).custom_events(),
        final(state).property_keys() == old(state).property_keys(),
        final(state).property_values() == old(state).property_values(),
        final(state).recorder().collect() == old(state).recorder().collect(),
        final(state).recorder().estimator() == old(state).recorder().estimator(),
        final(state).dimensions().capacity() == old(state).dimensions().capacity(),
        r@.len() == reqs@.len(),
        ({
            let f = dims_from(*old(state), requests_view(reqs@));
            &&& opt_views(r@) == f.0
            &&& final(state).dimensions().values() == f.1
            &&& final(state).recorder().admitted() == f.2
            &&& final(state).recorder().spent() == f.3
            &&& increments_view(final(out)@) == increments_view(old(out)@) + f.4
        }),
{
    let ghost s0 = *state;
    let ghost o0 = increments_view(out@);
    let ghost rv = requests_view(reqs@);
    let mut results: Vec<Option<String>> = Vec::new();
    let mut reqs = reqs;
    let mut i: usize = 0;
    let n = reqs.len();
    assert(rv.skip(0) =~= rv);
    while i < n
        invariant
            n == rv.len(),
            i <= n,
            reqs@.len() == n - i,
            results@.len() == i,
            rv.skip(i as int) == requests_view(reqs@),
            state.same_setup(&s0),
            state.same_limiters(&s0),
            state.paths() == s0.paths(),
            state.referrers() == s0.referrers(),
            state.custom_events() == s0.custom_events(),
            state.property_keys() == s0.property_keys(),
            state.property_values() == s0.property_values(),
            state.recorder().collect() == s0.recorder().collect(),
            state.recorder().estimator() == s0.recorder().estimator(),
            state.dimensions().capacity() == s0.dimensions().capacity(),
            arity_ok(o0, s0.collect()) ==> arity_ok(increments_view(out@), s0.collect()),
            ({
                let f = dims_from(s0, rv.take(i as int));
                &&& opt_views(results@) == f.0
                &&& state.dimensions().values() == f.1
                &&& state.recorder().admitted() == f.2
                &&& state.recorder().spent() == f.3
                &&& increments_view(out@) == o0 + f.4
            }),
        decreases n - i,
    {
        let ghost prev = dims_from(s0, rv.take(i as int));
        assert(rv.take(i + 1).drop_last() =~= rv.take(i as int));
        assert(rv.take(i + 1).last() == rv[i as int]);
        let ghost before_out = increments_view(out@);
        let ghost before_res = opt_views(results@);
        let ghost rest = reqs@;
        let req = reqs.remove(0);
        assert(requests_view(rest)[0] == rv.skip(i as int)[0]);
        assert(request_view(req) == rv[i as int]);
        assert forall|j: int| 0 <= j < reqs@.len() implies requests_view(reqs@)[j] == rv.skip(
            i + 1,
        )[j] by {
            assert(reqs@[j] == rest[j + 1]);
            assert(requests_view(rest)[j + 1] == rv.skip(i as int)[j + 1]);
        }
        assert(requests_view(reqs@) =~= rv.skip(i + 1));
        match req {
            None => {
                results.push(None);
            },
            Some((dimension, value, fallback)) => {
                let v = bounded_dimension(state, dimension, value, fallback, out);
                results.push(Some(v));
            },
        }
        assert(opt_views(results@) =~= before_res.push(opt_views(results@).last()));
        assert(increments_view(out@) =~= o0 + dims_from(s0, rv.take(i + 1)).4);
        i += 1;
    }
    assert(rv.take(n as int) =~= rv);
    results
}

/// The ten bounded dimensions of a label set, in request order.
pub open spec fn bounded_dims_of(l: DimensionLabels) -> Seq<Option<Seq<char>>> {
    seq![
        opt_view(l.referrer_source),
        opt_view(l.utm_source),
        opt_view(l.utm_medium),
        opt_view(l.utm_campaign),
        opt_view(l.utm_content),
        opt_view(l.utm_term),
        opt_view(l.click_id),
        opt_view(l.browser),
        opt_view(l.os),
        opt_view(l.screen),
    ]
}

/// The page URL acquisition parameters are read from: the event URL, or
/// the event path when the URL is blank.
pub open spec fn acquisition_url(event: Event, event_path: Seq<char>) -> Seq<char> {
    if trim(event.url@).len() == 0 {
        event_path
    } else {
        event.url@
    }
}

pub open spec fn req_if(flag: bool, dimension: Seq<char>, cand: Seq<char>) -> Option<(Seq<char>, Seq<char>)> {
    if flag {
        Some((dimension, cand))
    } else {
        None
    }
}

/// The dimension requests of an event, in order: the acquisition
/// dimensions, then browser, os and screen, each when collected.
pub open spec fn dimension_requests(
    collect: CollectConfig,
    url: Seq<char>,
    referrer: Seq<char>,
    event_domain: Seq<char>,
    user_agent: Seq<char>,
    width: u16,
    bp: DeviceBreakpoints,
) -> Seq<Option<(Seq<char>, Seq<char>)>> {
    let a = collect.acquisition;
    let pairs = query_pairs(url);
    seq![
        req_if(a, "referrer_source"@, dimension_candidate(referrer_domain_label(referrer, event_domain), "direct"@)),
        req_if(a, "utm_source"@, dimension_candidate(first_param(pairs, "utm_source"@), "none"@)),
        req_if(a, "utm_medium"@, dimension_candidate(first_param(pairs, "utm_medium"@), "none"@)),
        req_if(a, "utm_campaign"@, dimension_candidate(first_param(pairs, "utm_campaign"@), "none"@)),
        req_if(a, "utm_content"@, dimension_candidate(first_param(pairs, "utm_content"@), "none"@)),
        req_if(a, "utm_term"@, dimension_candidate(first_param(pairs, "utm_term"@), "none"@)),
        req_if(a, "click_id"@, dimension_candidate(first_click_id(pairs), "none"@)),
        req_if(collect.browser, "browser"@, dimension_candidate(Some(browser_class(user_agent)), "unknown"@)),
        req_if(collect.os, "os"@, dimension_candidate(Some(os_class(user_agent)), "unknown"@)),
        req_if(collect.screen, "screen"@, dimension_candidate(Some(screen_class(width, bp)), "unknown"@)),
    ]
}

fn opt_copy(o: &Option<String>) -> (r: Option<String>)
    ensures
        opt_view(r) == opt_view(*o),
{
    match o {
        Some(s) => Some(string_of(&chars_of(s.as_str()))),
        None => None,
    }
}

fn request(flag: bool, dimension: &'static str, value: Option<String>, fallback: &'static str) -> (r: Option<DimensionRequest>)
    ensures
        request_view(r) == req_if(flag, dimension@, dimension_candidate(opt_view(value), fallback@)),
{
    if flag {
        Some((dimension, value, fallback))
    } else {
        None
    }
}

fn dimension_request_list(
    collect: &CollectConfig,
    url: &str,
    referrer: &str,
    event_domain: &str,
    user_agent: &str,
    width: u16,
    bp: DeviceBreakpoints,
) -> (r: Vec<Option<DimensionRequest>>)
    ensures
        requests_view(r@) == dimension_requests(
            *collect,
            url@,
            referrer@,
            event_domain@,
            user_agent@,
            width,
            bp,
        ),
{
    let a = collect.acquisition;
    let acq = acquisition_labels(url, referrer, event_domain);
    let mut reqs: Vec<Option<DimensionRequest>> = Vec::new();
    reqs.push(request(a, "referrer_source", opt_copy(&acq.referrer_source), "direct"));
    reqs.push(request(a, "utm_source", opt_copy(&acq.utm_source), "none"));
    reqs.push(request(a, "utm_medium", opt_copy(&acq.utm_medium), "none"));
    reqs.push(request(a, "utm_campaign", opt_copy(&acq.utm_campaign), "none"));
    reqs.push(request(a, "utm_content", opt_copy(&acq.utm_content), "none"));
    reqs.push(request(a, "utm_term", opt_copy(&acq.utm_term), "none"));
    reqs.push(request(a, "click_id", opt_copy(&acq.click_id), "none"));
    reqs.push(request(collect.browser, "browser", Some(classify_browser(user_agent)), "unknown"));
    reqs.push(request(collect.os, "os", Some(classify_os(user_agent)), "unknown"));
    reqs.push(request(collect.screen, "screen", Some(classify_screen(width, bp)), "unknown"));
    assert(requests_view(reqs@) =~= dimension_requests(
        *collect,
        url@,
        referrer@,
        event_domain@,
        user_agent@,
        width,
        bp,
    ));
    reqs
}

/// Builds the dimension labels of an accepted event.
#[verifier::rlimit(40)]
pub fn metric_labels(
    state: &mut AppState,
    event: &Event,
    event_path: &str,
    event_domain: &str,
    normalized_path: String,
    user_agent: &str,
    out: &mut Vec<Increment>,
) -> (r: DimensionLabels)
    requires
        old(state).wf(),
    ensures
        arity_ok(increments_view(old(out)@), old(state).collect()) ==> arity_ok(
            increments_view(final(out)@),
            old(state).collect(),
        ),
        final(state).same_setup(old(state)),
        final(state).same_limiters(old(state)),
        final(state).paths() == old(state).paths(),
        final(state).custom_events() == old(state).custom_events(),
        final(state).property_keys() == old(state).property_keys(),
        final(state).property_values() == old(state).property_values(),
        final(state).recorder().collect() == old(state).recorder().collect(),
        final(state).recorder().estimator() == old(state).recorder().estimator(),
        final(state).dimensions().capacity() == old(state).dimensions().capacity(),
        ({
            let collect = old(state).collect();
            let bp = old(state).spec_config().limits.device_breakpoints;
            let reqs = dimension_requests(
                collect,
                acquisition_url(*event, event_path@),
                event.referrer@,
                event_domain@,
                user_agent@,
                event.width,
                bp,
            );
            // The referrer label is taken first, against the referrer registry.
            let cand = referrer_candidate(collect.referrer, event.referrer@, event_domain@);
            let ref_ticks = match cand {
                Some(label) if !(label == "direct"@ || label == "internal"@) && !accepts(old(state).referrers(), label) => tick(Counter::ReferrerOverflow),
                _ => Seq::empty(),
            };
            let f = dims_from(*old(state), reqs);
            &&& r.path@ == normalized_path@
            &&& opt_view(r.country) == (if collect.country { Some("unknown"@) } else { None })
            &&& opt_view(r.device) == (if collect.device { Some(device_class(event.width, user_agent@, bp)) } else { None })
            &&& opt_view(r.domain) == (if collect.domain { Some(event_domain@) } else { None })
            &&& match cand {
                None => r.referrer is None && final(state).referrers() == old(state).referrers(),
                Some(label) => if label == "direct"@ || label == "internal"@ {
                    opt_view(r.referrer) == Some(label) && final(state).referrers() == old(state).referrers()
                } else {
                    &&& offered_to(final(state).referrers(), old(state).referrers(), label)
                    &&& opt_view(r.referrer) == Some(if accepts(old(state).referrers(), label) { label } else { other_label() })
                },
            }
            &&& bounded_dims_of(r) == f.0
            &&& final(state).dimensions().values() == f.1
            &&& final(state).recorder().admitted() == f.2
            &&& final(state).recorder().spent() == f.3
            &&& increments_view(final(out)@) == increments_view(old(out)@) + ref_ticks + f.4
        }),
{
    let collect = state.config.site.collect;
    let bp = state.config.limits.device_breakpoints;
    let acq_url = if trim_str(event.url()).as_str().is_empty() {
        event_path
    } else {
        event.url()
    };
    assert(acq_url@ == acquisition_url(*event, event_path@));
    let country = if collect.country {
        Some(owned("unknown"))
    } else {
        None
    };
    let device = if collect.device {
        Some(classify_device(event.width(), user_agent, bp))
    } else {
        None
    };
    let ghost s0 = *state;
    let ghost o0 = increments_view(out@);
    let referrer = referrer_label(state, event.referrer(), event_domain, out);
    let ghost o1 = increments_view(out@);
    proof {
        reveal_strlit("other");
        assert("other"@ =~= other_label());
    }
    let reqs = dimension_request_list(
        &collect,
        acq_url,
        event.referrer(),
        event_domain,
        user_agent,
        event.width(),
        bp,
    );
    let bounded = bound_dimensions(state, reqs, out);
    let labels = DimensionLabels {
        path: normalized_path,
        country,
        device,
        referrer,
        referrer_source: opt_copy(&bounded[0]),
        utm_source: opt_copy(&bounded[1]),
        utm_medium: opt_copy(&bounded[2]),
        utm_campaign: opt_copy(&bounded[3]),
        utm_content: opt_copy(&bounded[4]),
        utm_term: opt_copy(&bounded[5]),
        click_id: opt_copy(&bounded[6]),
        browser: opt_copy(&bounded[7]),
        os: opt_copy(&bounded[8]),
        screen: opt_copy(&bounded[9]),
        domain: if collect.domain {
            Some(owned(event_domain))
        } else {
            None
        },
    };
    assert(bounded_dims_of(labels) =~= opt_views(bounded@));
    labels
}


// ---------------------------------------------------------------------------
// Recording an accepted event
// ---------------------------------------------------------------------------
/// Counts a pageview when pageviews are collected.
pub fn record_pageview(state: &mut AppState, labels: &DimensionLabels, out: &mut Vec<Increment>)
    requires
        old(state).wf(),
    ensures
        arity_ok(increments_view(old(out)@), old(state).collect()) ==> arity_ok(
            increments_view(final(out)@),
            old(state).collect(),
        ),
        final(state).same_setup(old(state)),
        final(state).same_limiters(old(state)),
        final(state).paths() == old(state).paths(),
        final(state).referrers() == old(state).referrers(),
        final(state).custom_events() == old(state).custom_events(),
        final(state).dimensions() == old(state).dimensions(),
        final(state).property_keys() == old(state).property_keys(),
        final(state).property_values() == old(state).property_values(),
        !old(state).collect().pageviews ==> final(state).recorder() == old(state).recorder()
            && final(out)@ == old(out)@,
        old(state).collect().pageviews ==> ({
            let v = label_values_of(old(state).collect(), *labels);
            &&& final(state).recorder().offered(&old(state).recorder(), Counter::Pageviews, v)
            &&& increments_view(final(out)@) == increments_view(old(out)@) + observation(
                Counter::Pageviews,
                v,
                ONE_BITS,
                old(state).recorder().takes(Counter::Pageviews, v),
            )
        }),
{
    if !state.config.site.collect.pageviews {
        return ;
    }
    state.metrics.record_pageview(labels, out);
}

/// Counts a custom event, by name and with its dimension labels.
pub fn record_event(state: &mut AppState, event_name: &str, labels: &DimensionLabels, out: &mut Vec<Increment>)
    requires
        old(state).wf(),
    ensures
        arity_ok(increments_view(old(out)@), old(state).collect()) ==> arity_ok(
            increments_view(final(out)@),
            old(state).collect(),
        ),
        final(state).same_setup(old(state)),
        final(state).same_limiters(old(state)),
        final(state).paths() == old(state).paths(),
        final(state).referrers() == old(state).referrers(),
        final(state).custom_events() == old(state).custom_events(),
        final(state).dimensions() == old(state).dimensions(),
        final(state).property_keys() == old(state).property_keys(),
        final(state).property_values() == old(state).property_values(),
        final(state).recorder().collect() == old(state).recorder().collect(),
        final(state).recorder().estimator() == old(state).recorder().estimator(),
        ({
            let collect = old(state).collect();
            let first = observe_step(
                old(state).recorder().admitted(),
                old(state).recorder().spent(),
                collect,
                Counter::CustomEvents,
                seq![sanitized(event_name@)],
            );
            let second = observe_step(
                first.0,
                first.1,
                collect,
                Counter::Events,
                seq![sanitized(event_name@)] + label_values_of(collect, *labels),
            );
            &&& final(state).recorder().admitted() == second.0
            &&& final(state).recorder().spent() == second.1
            &&& increments_view(final(out)@) == increments_view(old(out)@) + first.2 + second.2
        }),
{
    state.metrics.record_custom_event(event_name, out);
    state.metrics.record_event(event_name, labels, out);
}

/// Records engagement time and scroll depth when engagement is collected.
pub fn record_engagement(state: &mut AppState, event: &Event, labels: &DimensionLabels, out: &mut Vec<Increment>)
    requires
        old(state).wf(),
    ensures
        arity_ok(increments_view(old(out)@), old(state).collect()) ==> arity_ok(
            increments_view(final(out)@),
            old(state).collect(),
        ),
        final(state).same_setup(old(state)),
        final(state).same_limiters(old(state)),
        final(state).paths() == old(state).paths(),
        final(state).referrers() == old(state).referrers(),
        final(state).custom_events() == old(state).custom_events(),
        final(state).dimensions() == old(state).dimensions(),
        final(state).property_keys() == old(state).property_keys(),
        final(state).property_values() == old(state).property_values(),
        final(state).recorder().collect() == old(state).recorder().collect(),
        final(state).recorder().estimator() == old(state).recorder().estimator(),
        !old(state).collect().engagement ==> final(state).recorder() == old(state).recorder()
            && final(out)@ == old(out)@,
        old(state).collect().engagement ==> ({
            let collect = old(state).collect();
            let v = label_values_of(collect, *labels);
            let a0 = old(state).recorder().admitted();
            let s0 = old(state).recorder().spent();
            let first = match event.engagement_seconds_spec() {
                Some(bits) if positive_finite_bits(bits) => {
                    let names = counter_labels(Counter::EngagementSeconds, collect);
                    let name = Counter::EngagementSeconds.spec_name();
                    (
                        admitted_after(a0, s0, name, names, v),
                        spent_after(a0, s0, name, names, v),
                        observation(Counter::EngagementSeconds, v, bits, admits(a0, s0, name, names, v)),
                    )
                },
                _ => (a0, s0, Seq::empty()),
            };
            let second = if event.scroll_depth > 0 {
                observe_step(first.0, first.1, collect, Counter::ScrollDepth, v.push(scroll_bucket(event.scroll_depth)))
            } else {
                (first.0, first.1, Seq::empty())
            };
            &&& final(state).recorder().admitted() == second.0
            &&& final(state).recorder().spent() == second.1
            &&& increments_view(final(out)@) == increments_view(old(out)@) + first.2 + second.2
        }),
{
    if !state.config.site.collect.engagement {
        return ;
    }
    let ghost o0 = increments_view(out@);
    match event.engagement_seconds() {
        Some(bits) => {
            state.metrics.record_engagement_seconds(labels, bits, out);
        },
        None => {},
    }
    let ghost o1 = increments_view(out@);
    if event.scroll_depth() > 0 {
        state.metrics.record_scroll_depth(labels, event.scroll_depth(), out);
    }
    assert(increments_view(out@) =~= o0 + (o1.subrange(o0.len() as int, o1.len() as int)) + increments_view(out@).subrange(o1.len() as int, increments_view(out@).len() as int));
}

/// One custom property offered to the property registries and the budget:
/// the key registry's values, the value registry's values, the admitted
/// series keys, the spent bytes and the increments.
pub open spec fn property_step(
    keys: Set<Seq<char>>,
    key_cap: nat,
    values: Set<Seq<char>>,
    value_cap: nat,
    admitted: Set<Seq<char>>,
    spent: nat,
    collect: CollectConfig,
    event_name: Seq<char>,
    entry: (Seq<char>, Seq<char>),
) -> (Set<Seq<char>>, Set<Seq<char>>, Set<Seq<char>>, nat, Seq<(Counter, Seq<Seq<char>>, u64)>) {
    let k = sanitized(entry.0);
    let v = sanitized(entry.1);
    if !(keys.contains(k) || keys.len() < key_cap) {
        let o = observe_step(admitted, spent, collect, Counter::DimensionOverflow, seq![sanitized("property_key"@)]);
        (keys, values, o.0, o.1, o.2)
    } else {
        let rk = dimension_key(k, v);
        if values.contains(rk) || values.len() < value_cap {
            let o = observe_step(admitted, spent, collect, Counter::CustomProperties, seq![sanitized(event_name), sanitized(k), sanitized(v)]);
            (keys.insert(k), values.insert(rk), o.0, o.1, o.2)
        } else {
            let o1 = observe_step(admitted, spent, collect, Counter::DimensionOverflow, seq![sanitized("property_value"@)]);
            let o2 = observe_step(o1.0, o1.1, collect, Counter::CustomProperties, seq![sanitized(event_name), sanitized(k), sanitized(other_label())]);
            (keys.insert(k), values, o2.0, o2.1, o1.2 + o2.2)
        }
    }
}

/// Custom properties offered in order.
pub open spec fn property_fold(
    keys: Set<Seq<char>>,
    key_cap: nat,
    values: Set<Seq<char>>,
    value_cap: nat,
    admitted: Set<Seq<char>>,
    spent: nat,
    collect: CollectConfig,
    event_name: Seq<char>,
    entries: Seq<(Seq<char>, Seq<char>)>,
) -> (Set<Seq<char>>, Set<Seq<char>>, Set<Seq<char>>, nat, Seq<(Counter, Seq<Seq<char>>, u64)>)
    decreases entries.len(),
{
    if entries.len() == 0 {
        (keys, values, admitted, spent, Seq::empty())
    } else {
        let p = property_fold(keys, key_cap, values, value_cap, admitted, spent, collect, event_name, entries.drop_last());
        let q = property_step(p.0, key_cap, p.1, value_cap, p.2, p.3, collect, event_name, entries.last());
        (q.0, q.1, q.2, q.3, p.4 + q.4)
    }
}

/// Whether `after` and the increments `out_after` are what offering the
/// sorted `entries` (whose lookups are those of `raw`) to the property
/// registries and the budget makes of the given registries, budget and
/// increments `out_before`.
pub open spec fn properties_recorded(
    keys: Set<Seq<char>>,
    key_cap: nat,
    values: Set<Seq<char>>,
    value_cap: nat,
    admitted: Set<Seq<char>>,
    spent: nat,
    collect: CollectConfig,
    event_name: Seq<char>,
    raw: Seq<(Seq<char>, Seq<char>)>,
    after: AppState,
    out_before: Seq<(Counter, Seq<Seq<char>>, u64)>,
    out_after: Seq<(Counter, Seq<Seq<char>>, u64)>,
    entries: Seq<(Seq<char>, Seq<char>)>,
) -> bool {
    let q = property_fold(keys, key_cap, values, value_cap, admitted, spent, collect, event_name, entries);
    &&& sorted_keys(entries)
    &&& forall|k: Seq<char>| lookup(entries, k) == last_value(raw, k)
    &&& after.property_keys().values() == q.0
    &&& after.property_values().values() == q.1
    &&& after.recorder().admitted() == q.2
    &&& after.recorder().spent() == q.3
    &&& out_after == out_before + q.4
}

/// `property_fold` from a state's registries and recorder.
pub open spec fn properties_from(state: AppState, event_name: Seq<char>, entries: Seq<(Seq<char>, Seq<char>)>) -> (
    Set<Seq<char>>,
    Set<Seq<char>>,
    Set<Seq<char>>,
    nat,
    Seq<(Counter, Seq<Seq<char>>, u64)>,
) {
    property_fold(
        state.property_keys().values(),
        state.property_keys().capacity(),
        state.property_values().values(),
        state.property_values().capacity(),
        state.recorder().admitted(),
        state.recorder().spent(),
        state.collect(),
        event_name,
        entries,
    )
}

fn record_property(state: &mut AppState, event_name: &str, key: &str, value: &str, out: &mut Vec<Increment>)
    requires
        old(state).wf(),
    ensures
        arity_ok(increments_view(old(out)@), old(state).collect()) ==> arity_ok(
            increments_view(final(out)@),
            old(state).collect(),
        ),
        final(state).same_setup(old(state)),
        final(state).same_limiters(old(state)),
        final(state).paths() == old(state).paths(),
        final(state).referrers() == old(state).referrers(),
        final(state).custom_events() == old(state).custom_events(),
        final(state).dimensions() == old(state).dimensions(),
        final(state).recorder().collect() == old(state).recorder().collect(),
        final(state).recorder().estimator() == old(state).recorder().estimator(),
        final(state).property_keys().capacity() == old(state).property_keys().capacity(),
        final(state).property_values().capacity() == old(state).property_values().capacity(),
        ({
            let q = property_step(
                old(state).property_keys().values(),
                old(state).property_keys().capacity(),
                old(state).property_values().values(),
                old(state).property_values().capacity(),
                old(state).recorder().admitted(),
                old(state).recorder().spent(),
                old(state).collect(),
                event_name@,
                (key@, value@),
            );
            &&& final(state).property_keys().values() == q.0
            &&& final(state).property_values().values() == q.1
            &&& final(state).recorder().admitted() == q.2
            &&& final(state).recorder().spent() == q.3
            &&& increments_view(final(out)@) == increments_view(old(out)@) + q.4
        }),
{
    let k = sanitize_label(key);
    let v = sanitize_label(value);
    proof {
        reveal_strlit("other");
        assert("other"@ =~= other_label());
    }
    if !offer(&mut state.property_key_registry, k.as_str()) {
        state.metrics.record_dimension_overflow("property_key", out);
        return ;
    }
    let mut rk = String::new();
    push_str(&mut rk, k.as_str());
    push_char(&mut rk, '=');
    push_str(&mut rk, v.as_str());
    assert(rk@ =~= dimension_key(k@, v@));
    let ghost o0 = increments_view(out@);
    if offer(&mut state.property_value_registry, rk.as_str()) {
        state.metrics.record_custom_property(event_name, k.as_str(), v.as_str(), out);
    } else {
        state.metrics.record_dimension_overflow("property_value", out);
        let ghost o1 = increments_view(out@);
        let o = other_string();
        state.metrics.record_custom_property(event_name, k.as_str(), o.as_str(), out);
        assert(increments_view(out@) =~= o0 + o1.subrange(o0.len() as int, o1.len() as int) + increments_view(out@).subrange(o1.len() as int, increments_view(out@).len() as int));
    }
}

/// Counts the custom properties of an event when properties are collected
/// and the event has a label.
pub fn record_properties(state: &mut AppState, event_name: Option<&str>, event: &Event, out: &mut Vec<Increment>)
    requires
        old(state).wf(),
    ensures
        arity_ok(increments_view(old(out)@), old(state).collect()) ==> arity_ok(
            increments_view(final(out)@),
            old(state).collect(),
        ),
        final(state).same_setup(old(state)),
        final(state).same_limiters(old(state)),
        final(state).paths() == old(state).paths(),
        final(state).referrers() == old(state).referrers(),
        final(state).custom_events() == old(state).custom_events(),
        final(state).dimensions() == old(state).dimensions(),
        final(state).recorder().collect() == old(state).recorder().collect(),
        final(state).recorder().estimator() == old(state).recorder().estimator(),
        final(state).property_keys().capacity() == old(state).property_keys().capacity(),
        final(state).property_values().capacity() == old(state).property_values().capacity(),
        !old(state).collect().properties || event_name is None ==> *final(state) == *old(state)
            && final(out)@ == old(out)@,
        old(state).collect().properties && event_name is Some ==> exists|entries: Seq<(Seq<char>, Seq<char>)>|
            #[trigger] properties_recorded(
                old(state).property_keys().values(),
                old(state).property_keys().capacity(),
                old(state).property_values().values(),
                old(state).property_values().capacity(),
                old(state).recorder().admitted(),
                old(state).recorder().spent(),
                old(state).collect(),
                event_name->0@,
                event.raw_properties(),
                *final(state),
                increments_view(old(out)@),
                increments_view(final(out)@),
                entries,
            ),
{
    if !state.config.site.collect.properties {
        return ;
    }
    let name = match event_name {
        Some(n) => n,
        None => {
            return ;
        },
    };
    let props = event.properties();
    let ghost entries = props.pairs();
    let ghost s0 = *state;
    let ghost o0 = increments_view(out@);
    let n = props.len();
    let mut i: usize = 0;
    while i < n
        invariant
            n == entries.len(),
            i <= n,
            entries == props.pairs(),
            state.wf(),
            state.same_setup(&s0),
            state.same_limiters(&s0),
            state.paths() == s0.paths(),
            state.referrers() == s0.referrers(),
            state.custom_events() == s0.custom_events(),
            state.dimensions() == s0.dimensions(),
            state.recorder().collect() == s0.recorder().collect(),
            state.recorder().estimator() == s0.recorder().estimator(),
            state.property_keys().capacity() == s0.property_keys().capacity(),
            state.property_values().capacity() == s0.property_values().capacity(),
            arity_ok(o0, s0.collect()) ==> arity_ok(increments_view(out@), s0.collect()),
            ({
                let q = properties_from(s0, name@, entries.take(i as int));
                &&& state.property_keys().values() == q.0
                &&& state.property_values().values() == q.1
                &&& state.recorder().admitted() == q.2
                &&& state.recorder().spent() == q.3
                &&& increments_view(out@) == o0 + q.4
            }),
        decreases n - i,
    {
        assert(entries.take(i + 1).drop_last() =~= entries.take(i as int));
        assert(entries.take(i + 1).last() == entries[i as int]);
        let (key, value) = props.entry(i);
        record_property(state, name, key, value, out);
        i += 1;
    }
    assert(entries.take(n as int) =~= entries);
    assert(properties_recorded(
        s0.property_keys().values(),
        s0.property_keys().capacity(),
        s0.property_values().values(),
        s0.property_values().capacity(),
        s0.recorder().admitted(),
        s0.recorder().spent(),
        s0.collect(),
        name@,
        event.raw_properties(),
        *state,
        o0,
        increments_view(out@),
        entries,
    ));
}


// ---------------------------------------------------------------------------
// The ingestion endpoint
// ---------------------------------------------------------------------------
/// Response status of the HTTP endpoints.
#[derive(Clone, Copy, Debug, PartialEq, Eq, Structural)]
pub enum Status {
    Success,
    NoContent,
    BadRequest,
    Unauthorized,
    TooManyRequests,
    InternalServerError,
}

/// Why an event is refused, if it is: no domain, a domain not configured,
/// or the first bound it breaks.
pub open spec fn event_rejection(event: Event, domains: Set<Seq<char>>) -> Option<EventError> {
    if event.spec_domain().len() == 0 {
        Some(EventError::MissingDomain)
    } else if !domains.contains(event.spec_domain()) {
        Some(EventError::DomainNotAllowed)
    } else {
        event.spec_bounds_error()
    }
}

proof fn dim_fold_arity(
    dims: Set<Seq<char>>,
    cap: nat,
    admitted: Set<Seq<char>>,
    spent: nat,
    collect: CollectConfig,
    reqs: Seq<Option<(Seq<char>, Seq<char>)>>,
)
    ensures
        arity_ok(dim_fold(dims, cap, admitted, spent, collect, reqs).4, collect),
    decreases reqs.len(),
{
    if reqs.len() > 0 {
        dim_fold_arity(dims, cap, admitted, spent, collect, reqs.drop_last());
        let prev = dim_fold(dims, cap, admitted, spent, collect, reqs.drop_last());
        match reqs.last() {
            Some((dimension, cand)) => {
                let d = seq![sanitized(dimension)];
                let names = counter_labels(Counter::DimensionOverflow, collect);
                let c = Counter::DimensionOverflow;
                observation_arity(c, d, ONE_BITS, admits(prev.2, prev.3, c.spec_name(), names, d), collect);
                lemma_arity_concat(prev.4, observation(c, d, ONE_BITS, admits(prev.2, prev.3, c.spec_name(), names, d)), collect);
            },
            None => {},
        }
    }
}

proof fn property_fold_arity(
    keys: Set<Seq<char>>,
    key_cap: nat,
    values: Set<Seq<char>>,
    value_cap: nat,
    admitted: Set<Seq<char>>,
    spent: nat,
    collect: CollectConfig,
    event_name: Seq<char>,
    entries: Seq<(Seq<char>, Seq<char>)>,
)
    ensures
        arity_ok(property_fold(keys, key_cap, values, value_cap, admitted, spent, collect, event_name, entries).4, collect),
    decreases entries.len(),
{
    if entries.len() > 0 {
        property_fold_arity(keys, key_cap, values, value_cap, admitted, spent, collect, event_name, entries.drop_last());
        let p = property_fold(keys, key_cap, values, value_cap, admitted, spent, collect, event_name, entries.drop_last());
        let e = entries.last();
        let k = sanitized(e.0);
        let v = sanitized(e.1);
        let dk = seq![sanitized("property_key"@)];
        let dv = seq![sanitized("property_value"@)];
        let cp = Counter::CustomProperties;
        let dov = Counter::DimensionOverflow;
        let o_k = observe_step(p.2, p.3, collect, dov, dk);
        observation_arity(dov, dk, ONE_BITS, admits(p.2, p.3, dov.spec_name(), counter_labels(dov, collect), dk), collect);
        let pv = seq![sanitized(event_name), sanitized(k), sanitized(v)];
        observation_arity(cp, pv, ONE_BITS, admits(p.2, p.3, cp.spec_name(), counter_labels(cp, collect), pv), collect);
        let o1 = observe_step(p.2, p.3, collect, dov, dv);
        observation_arity(dov, dv, ONE_BITS, admits(p.2, p.3, dov.spec_name(), counter_labels(dov, collect), dv), collect);
        let po = seq![sanitized(event_name), sanitized(k), sanitized(other_label())];
        observation_arity(cp, po, ONE_BITS, admits(o1.0, o1.1, cp.spec_name(), counter_labels(cp, collect), po), collect);
        let o2 = observe_step(o1.0, o1.1, collect, cp, po);
        lemma_arity_concat(o1.2, o2.2, collect);
        let q = property_step(p.0, key_cap, p.1, value_cap, p.2, p.3, collect, event_name, e);
        lemma_arity_concat(p.4, q.4, collect);
    }
}

/// Whether the registries and the recorder of `a` are those of `b`.
pub open spec fn same_tallies(a: AppState, b: AppState) -> bool {
    &&& a.paths() == b.paths()
    &&& a.referrers() == b.referrers()
    &&& a.custom_events() == b.custom_events()
    &&& a.dimensions() == b.dimensions()
    &&& a.property_keys() == b.property_keys()
    &&& a.property_values() == b.property_values()
    &&& a.recorder() == b.recorder()
}

/// Recorder state threaded through observations: the admitted series keys,
/// the spent bytes and the increments so far.
pub open spec fn then_observe(
    st: (Set<Seq<char>>, nat, Seq<(Counter, Seq<Seq<char>>, u64)>),
    collect: CollectConfig,
    c: Counter,
    values: Seq<Seq<char>>,
) -> (Set<Seq<char>>, nat, Seq<(Counter, Seq<Seq<char>>, u64)>) {
    let o = observe_step(st.0, st.1, collect, c, values);
    (o.0, o.1, st.2 + o.2)
}

/// The session start of an event, when sessions are collected.
pub open spec fn session_part(
    collect: CollectConfig,
    st: (Set<Seq<char>>, nat, Seq<(Counter, Seq<Seq<char>>, u64)>),
    values: Seq<Seq<char>>,
    event: Event,
) -> (Set<Seq<char>>, nat, Seq<(Counter, Seq<Seq<char>>, u64)>) {
    if event.new_session && collect.sessions {
        then_observe(st, collect, Counter::Sessions, values)
    } else {
        st
    }
}

/// The pageview (when collected) or the custom event of an event.
pub open spec fn event_part(
    collect: CollectConfig,
    st: (Set<Seq<char>>, nat, Seq<(Counter, Seq<Seq<char>>, u64)>),
    values: Seq<Seq<char>>,
    is_pageview: bool,
    event_label: Option<Seq<char>>,
) -> (Set<Seq<char>>, nat, Seq<(Counter, Seq<Seq<char>>, u64)>) {
    if is_pageview {
        if collect.pageviews {
            then_observe(st, collect, Counter::Pageviews, values)
        } else {
            st
        }
    } else {
        match event_label {
            Some(e) => then_observe(
                then_observe(st, collect, Counter::CustomEvents, seq![sanitized(e)]),
                collect,
                Counter::Events,
                seq![sanitized(e)] + values,
            ),
            None => st,
        }
    }
}

/// The engagement time and scroll depth of an event, when collected.
pub open spec fn engagement_part(
    collect: CollectConfig,
    st: (Set<Seq<char>>, nat, Seq<(Counter, Seq<Seq<char>>, u64)>),
    values: Seq<Seq<char>>,
    event: Event,
) -> (Set<Seq<char>>, nat, Seq<(Counter, Seq<Seq<char>>, u64)>) {
    if collect.engagement {
        let e1 = match event.engagement_seconds_spec() {
            Some(bits) if positive_finite_bits(bits) => {
                let c = Counter::EngagementSeconds;
                let names = counter_labels(c, collect);
                (
                    admitted_after(st.0, st.1, c.spec_name(), names, values),
                    spent_after(st.0, st.1, c.spec_name(), names, values),
                    st.2 + observation(c, values, bits, admits(st.0, st.1, c.spec_name(), names, values)),
                )
            },
            _ => st,
        };
        if event.scroll_depth > 0 {
            then_observe(e1, collect, Counter::ScrollDepth, values.push(scroll_bucket(event.scroll_depth)))
        } else {
            e1
        }
    } else {
        st
    }
}

/// The counters an accepted event feeds, in order, from the recorder state
/// `start`: its session start, its pageview or custom event, and its
/// engagement time and scroll depth, each when collected.
pub open spec fn observation_chain(
    collect: CollectConfig,
    start: (Set<Seq<char>>, nat),
    values: Seq<Seq<char>>,
    event: Event,
    is_pageview: bool,
    event_label: Option<Seq<char>>,
) -> (Set<Seq<char>>, nat, Seq<(Counter, Seq<Seq<char>>, u64)>) {
    let s0 = (start.0, start.1, Seq::<(Counter, Seq<Seq<char>>, u64)>::empty());
    engagement_part(
        collect,
        event_part(collect, session_part(collect, s0, values, event), values, is_pageview, event_label),
        values,
        event,
    )
}

/// The recorder state of `state`, with the increments `incs`.
pub open spec fn tally(state: AppState, incs: Seq<(Counter, Seq<Seq<char>>, u64)>) -> (
    Set<Seq<char>>,
    nat,
    Seq<(Counter, Seq<Seq<char>>, u64)>,
) {
    (state.recorder().admitted(), state.recorder().spent(), incs)
}

/// The part of the state counting an event leaves alone.
pub open spec fn counts_frame(after: AppState, before: AppState) -> bool {
    &&& after.same_setup(&before)
    &&& after.same_limiters(&before)
    &&& after.wf()
    &&& after.paths() == before.paths()
    &&& after.referrers() == before.referrers()
    &&& after.custom_events() == before.custom_events()
    &&& after.dimensions() == before.dimensions()
    &&& after.property_keys() == before.property_keys()
    &&& after.property_values() == before.property_values()
    &&& after.recorder().estimator() == before.recorder().estimator()
}

fn count_session(state: &mut AppState, event: &Event, labels: &DimensionLabels, out: &mut Vec<Increment>)
    requires
        old(state).wf(),
    ensures
        counts_frame(*final(state), *old(state)),
        ({
            let collect = old(state).collect();
            let st = session_part(collect, tally(*old(state), increments_view(old(out)@)), label_values_of(collect, *labels), *event);
            tally(*final(state), increments_view(final(out)@)) == st
        }),
        arity_ok(increments_view(old(out)@), old(state).collect()) ==> arity_ok(
            increments_view(final(out)@),
            old(state).collect(),
        ),
{
    if event.is_new_session() && state.config.site.collect.sessions {
        state.metrics.record_session(labels, out);
    }
}

fn count_event(
    state: &mut AppState,
    labels: &DimensionLabels,
    is_pageview: bool,
    event_label: &Option<String>,
    out: &mut Vec<Increment>,
)
    requires
        old(state).wf(),
    ensures
        counts_frame(*final(state), *old(state)),
        ({
            let collect = old(state).collect();
            let st = event_part(collect, tally(*old(state), increments_view(old(out)@)), label_values_of(collect, *labels), is_pageview, opt_view(*event_label));
            tally(*final(state), increments_view(final(out)@)) == st
        }),
        arity_ok(increments_view(old(out)@), old(state).collect()) ==> arity_ok(
            increments_view(final(out)@),
            old(state).collect(),
        ),
{
    let ghost o0 = increments_view(out@);
    if is_pageview {
        record_pageview(state, labels, out);
    } else {
        match event_label {
            Some(label) => {
                record_event(state, label.as_str(), labels, out);
            },
            None => {},
        }
    }
    assert(increments_view(out@) =~= event_part(old(state).collect(), tally(*old(state), o0), label_values_of(old(state).collect(), *labels), is_pageview, opt_view(*event_label)).2);
}

fn count_engagement(state: &mut AppState, event: &Event, labels: &DimensionLabels, out: &mut Vec<Increment>)
    requires
        old(state).wf(),
    ensures
        counts_frame(*final(state), *old(state)),
        ({
            let collect = old(state).collect();
            let st = engagement_part(collect, tally(*old(state), increments_view(old(out)@)), label_values_of(collect, *labels), *event);
            tally(*final(state), increments_view(final(out)@)) == st
        }),
        arity_ok(increments_view(old(out)@), old(state).collect()) ==> arity_ok(
            increments_view(final(out)@),
            old(state).collect(),
        ),
{
    let ghost o0 = increments_view(out@);
    record_engagement(state, event, labels, out);
    assert(increments_view(out@) =~= engagement_part(old(state).collect(), tally(*old(state), o0), label_values_of(old(state).collect(), *labels), *event).2);
}

proof fn lemma_observe_offset(
    st: (Set<Seq<char>>, nat, Seq<(Counter, Seq<Seq<char>>, u64)>),
    p: Seq<(Counter, Seq<Seq<char>>, u64)>,
    collect: CollectConfig,
    c: Counter,
    values: Seq<Seq<char>>,
)
    ensures
        ({
            let a = then_observe((st.0, st.1, p + st.2), collect, c, values);
            let b = then_observe(st, collect, c, values);
            a.0 == b.0 && a.1 == b.1 && a.2 =~= p + b.2
        }),
{
}

proof fn lemma_session_offset(
    st: (Set<Seq<char>>, nat, Seq<(Counter, Seq<Seq<char>>, u64)>),
    p: Seq<(Counter, Seq<Seq<char>>, u64)>,
    collect: CollectConfig,
    values: Seq<Seq<char>>,
    event: Event,
)
    ensures
        ({
            let a = session_part(collect, (st.0, st.1, p + st.2), values, event);
            let b = session_part(collect, st, values, event);
            a.0 == b.0 && a.1 == b.1 && a.2 =~= p + b.2
        }),
{
    lemma_observe_offset(st, p, collect, Counter::Sessions, values);
}

proof fn lemma_event_offset(
    st: (Set<Seq<char>>, nat, Seq<(Counter, Seq<Seq<char>>, u64)>),
    p: Seq<(Counter, Seq<Seq<char>>, u64)>,
    collect: CollectConfig,
    values: Seq<Seq<char>>,
    is_pageview: bool,
    event_label: Option<Seq<char>>,
)
    ensures
        ({
            let a = event_part(collect, (st.0, st.1, p + st.2), values, is_pageview, event_label);
            let b = event_part(collect, st, values, is_pageview, event_label);
            a.0 == b.0 && a.1 == b.1 && a.2 =~= p + b.2
        }),
{
    lemma_observe_offset(st, p, collect, Counter::Pageviews, values);
    match event_label {
        Some(e) => {
            let v1 = seq![sanitized(e)];
            lemma_observe_offset(st, p, collect, Counter::CustomEvents, v1);
            let b1 = then_observe(st, collect, Counter::CustomEvents, v1);
            lemma_observe_offset(b1, p, collect, Counter::Events, v1 + values);
            let a1 = then_observe((st.0, st.1, p + st.2), collect, Counter::CustomEvents, v1);
            assert(a1 == (b1.0, b1.1, p + b1.2));
        },
        None => {},
    }
}

proof fn lemma_engagement_offset(
    st: (Set<Seq<char>>, nat, Seq<(Counter, Seq<Seq<char>>, u64)>),
    p: Seq<(Counter, Seq<Seq<char>>, u64)>,
    collect: CollectConfig,
    values: Seq<Seq<char>>,
    event: Event,
)
    ensures
        ({
            let a = engagement_part(collect, (st.0, st.1, p + st.2), values, event);
            let b = engagement_part(collect, st, values, event);
            a.0 == b.0 && a.1 == b.1 && a.2 =~= p + b.2
        }),
{
    let c = Counter::EngagementSeconds;
    let names = counter_labels(c, collect);
    let e1b = match event.engagement_seconds_spec() {
        Some(bits) if positive_finite_bits(bits) => (
            admitted_after(st.0, st.1, c.spec_name(), names, values),
            spent_after(st.0, st.1, c.spec_name(), names, values),
            st.2 + observation(c, values, bits, admits(st.0, st.1, c.spec_name(), names, values)),
        ),
        _ => st,
    };
    let e1a = match event.engagement_seconds_spec() {
        Some(bits) if positive_finite_bits(bits) => (
            admitted_after(st.0, st.1, c.spec_name(), names, values),
            spent_after(st.0, st.1, c.spec_name(), names, values),
            (p + st.2) + observation(c, values, bits, admits(st.0, st.1, c.spec_name(), names, values)),
        ),
        _ => (st.0, st.1, p + st.2),
    };
    assert(e1a.0 == e1b.0 && e1a.1 == e1b.1 && e1a.2 =~= p + e1b.2);
    let depth = values.push(scroll_bucket(event.scroll_depth));
    lemma_observe_offset(e1b, p, collect, Counter::ScrollDepth, depth);
    assert(e1a == (e1b.0, e1b.1, p + e1b.2));
}

/// Records the session start, the pageview or custom event, and the
/// engagement of an accepted event.
fn record_counts(
    state: &mut AppState,
    event: &Event,
    labels: &DimensionLabels,
    is_pageview: bool,
    event_label: &Option<String>,
    out: &mut Vec<Increment>,
)
    requires
        old(state).wf(),
    ensures
        counts_frame(*final(state), *old(state)),
        arity_ok(increments_view(old(out)@), old(state).collect()) ==> arity_ok(
            increments_view(final(out)@),
            old(state).collect(),
        ),
        ({
            let collect = old(state).collect();
            let c = observation_chain(
                collect,
                (old(state).recorder().admitted(), old(state).recorder().spent()),
                label_values_of(collect, *labels),
                *event,
                is_pageview,
                opt_view(*event_label),
            );
            tally(*final(state), increments_view(final(out)@)) == (c.0, c.1, increments_view(old(out)@) + c.2)
        }),
{
    let ghost collect = old(state).collect();
    let ghost values = label_values_of(collect, *labels);
    let ghost p = increments_view(old(out)@);
    let ghost e = Seq::<(Counter, Seq<Seq<char>>, u64)>::empty();
    let ghost b0 = (old(state).recorder().admitted(), old(state).recorder().spent(), e);
    let ghost b1 = session_part(collect, b0, values, *event);
    let ghost b2 = event_part(collect, b1, values, is_pageview, opt_view(*event_label));
    let ghost b3 = engagement_part(collect, b2, values, *event);
    proof {
        assert(p + e =~= p);
        lemma_session_offset(b0, p, collect, values, *event);
        lemma_event_offset(b1, p, collect, values, is_pageview, opt_view(*event_label));
        lemma_engagement_offset(b2, p, collect, values, *event);
    }
    count_session(state, event, labels, out);
    assert(tally(*state, increments_view(out@)) == (b1.0, b1.1, p + b1.2));
    count_event(state, labels, is_pageview, event_label, out);
    assert(tally(*state, increments_view(out@)) == (b2.0, b2.1, p + b2.2));
    count_engagement(state, event, labels, out);
    assert(tally(*state, increments_view(out@)) == (b3.0, b3.1, p + b3.2));
}

/// The name custom properties are counted under: `pageview` for a
/// pageview, else the event's label (none for a dropped event).
pub open spec fn property_event(is_pageview: bool, event_label: Option<Seq<char>>) -> Option<Seq<char>> {
    if is_pageview {
        Some("pageview"@)
    } else {
        event_label
    }
}

/// What recording the counters of an accepted event leaves behind, from the
/// state `s0` and increments `out_before` before it: the observation
/// chain's increments, then the event's custom properties where they are
/// collected, with the registries of property keys and values that admits.
pub open spec fn observations_recorded(
    s0: AppState,
    c: (Set<Seq<char>>, nat, Seq<(Counter, Seq<Seq<char>>, u64)>),
    is_pageview: bool,
    event_label: Option<Seq<char>>,
    raw: Seq<(Seq<char>, Seq<char>)>,
    out_before: Seq<(Counter, Seq<Seq<char>>, u64)>,
    after: AppState,
    out_after: Seq<(Counter, Seq<Seq<char>>, u64)>,
) -> bool {
    let collect = s0.collect();
    match property_event(is_pageview, event_label) {
        Some(name) if collect.properties => exists|entries: Seq<(Seq<char>, Seq<char>)>|
            #[trigger] properties_recorded(
                s0.property_keys().values(),
                s0.property_keys().capacity(),
                s0.property_values().values(),
                s0.property_values().capacity(),
                c.0,
                c.1,
                collect,
                name,
                raw,
                after,
                out_before + c.2,
                out_after,
                entries,
            ),
        _ => {
            &&& after.property_keys() == s0.property_keys()
            &&& after.property_values() == s0.property_values()
            &&& after.recorder().admitted() == c.0
            &&& after.recorder().spent() == c.1
            &&& out_after == out_before + c.2
        },
    }
}

/// Records the counters of an accepted, labelled event: its session start,
/// its pageview or custom event, its engagement and its custom properties.
pub fn record_observations(
    state: &mut AppState,
    event: &Event,
    labels: &DimensionLabels,
    is_pageview: bool,
    event_label: &Option<String>,
    out: &mut Vec<Increment>,
)
    requires
        old(state).wf(),
    ensures
        final(state).same_setup(old(state)),
        final(state).same_limiters(old(state)),
        final(state).wf(),
        final(state).paths() == old(state).paths(),
        final(state).referrers() == old(state).referrers(),
        final(state).custom_events() == old(state).custom_events(),
        final(state).dimensions() == old(state).dimensions(),
        final(state).recorder().estimator() == old(state).recorder().estimator(),
        final(state).property_keys().capacity() == old(state).property_keys().capacity(),
        final(state).property_values().capacity() == old(state).property_values().capacity(),
        arity_ok(increments_view(old(out)@), old(state).collect()) ==> arity_ok(
            increments_view(final(out)@),
            old(state).collect(),
        ),
        observations_recorded(
            *old(state),
            observation_chain(
                old(state).collect(),
                (old(state).recorder().admitted(), old(state).recorder().spent()),
                label_values_of(old(state).collect(), *labels),
                *event,
                is_pageview,
                opt_view(*event_label),
            ),
            is_pageview,
            opt_view(*event_label),
            event.raw_properties(),
            increments_view(old(out)@),
            *final(state),
            increments_view(final(out)@),
        ),
{
    record_counts(state, event, labels, is_pageview, event_label, out);
    let ghost mid = *state;
    let ghost omid = increments_view(out@);
    proof {
        reveal_strlit("pageview");
    }
    let label_ref: Option<&str> = if is_pageview {
        Some("pageview")
    } else {
        match event_label {
            Some(label) => Some(label.as_str()),
            None => None,
        }
    };
    record_properties(state, label_ref, event, out);
    proof {
        let collect = mid.collect();
        match property_event(is_pageview, opt_view(*event_label)) {
            Some(name) => {
                if collect.properties {
                    let e = choose|entries: Seq<(Seq<char>, Seq<char>)>|
                        #[trigger] properties_recorded(
                            mid.property_keys().values(),
                            mid.property_keys().capacity(),
                            mid.property_values().values(),
                            mid.property_values().capacity(),
                            mid.recorder().admitted(),
                            mid.recorder().spent(),
                            collect,
                            name,
                            event.raw_properties(),
                            *state,
                            omid,
                            increments_view(out@),
                            entries,
                        );
                    assert(properties_recorded(
                        old(state).property_keys().values(),
                        old(state).property_keys().capacity(),
                        old(state).property_values().values(),
                        old(state).property_values().capacity(),
                        mid.recorder().admitted(),
                        mid.recorder().spent(),
                        collect,
                        name,
                        event.raw_properties(),
                        *state,
                        omid,
                        increments_view(out@),
                        e,
                    ));
                }
            },
            None => {},
        }
    }
}

/// The label of an event path and the path registry's values after it was
/// offered, with the increments that records.
pub open spec fn path_outcome(s0: AppState, path: Seq<char>) -> (
    Seq<char>,
    Set<Seq<char>>,
    Seq<(Counter, Seq<Seq<char>>, u64)>,
) {
    let n = normalize_path(s0.path_rules(), path);
    if accepts(s0.paths(), n) {
        (n, s0.paths().values().insert(n), Seq::empty())
    } else {
        (other_label(), s0.paths().values(), tick(Counter::PathOverflow))
    }
}

/// The referrer label of an event and the referrer registry's values after
/// it, with the increments that records.
pub open spec fn referrer_outcome(s0: AppState, referrer: Seq<char>, event_domain: Seq<char>) -> (
    Option<Seq<char>>,
    Set<Seq<char>>,
    Seq<(Counter, Seq<Seq<char>>, u64)>,
) {
    let vals = s0.referrers().values();
    match referrer_candidate(s0.collect().referrer, referrer, event_domain) {
        None => (None, vals, Seq::empty()),
        Some(label) => if label == "direct"@ || label == "internal"@ {
            (Some(label), vals, Seq::empty())
        } else if accepts(s0.referrers(), label) {
            (Some(label), vals.insert(label), Seq::empty())
        } else {
            (Some(other_label()), vals, tick(Counter::ReferrerOverflow))
        },
    }
}

/// The label of a non-pageview event name and the custom event registry's
/// values after it, with the increments that records.
pub open spec fn event_outcome(s0: AppState, name: Seq<char>) -> (
    Option<Seq<char>>,
    Set<Seq<char>>,
    Seq<(Counter, Seq<Seq<char>>, u64)>,
) {
    let n = event_label(name);
    let vals = s0.custom_events().values();
    if !system_event(n) && s0.events().len() > 0 && !s0.events().contains(n) {
        (None, vals, Seq::empty())
    } else if system_event(n) {
        (Some(n), vals, Seq::empty())
    } else if accepts(s0.custom_events(), n) {
        (Some(n), vals.insert(n), Seq::empty())
    } else {
        (Some(other_label()), vals, tick(Counter::EventOverflow))
    }
}

/// The labels an accepted event was recorded under.
pub struct Accepted {
    /// Its dimension labels.
    pub labels: DimensionLabels,
    /// Its custom event label (none for a pageview or a dropped event).
    pub event_label: Option<String>,
}

/// What recording an accepted event does, from the state `s0` and the
/// increments `out_before` before it to the state `after` and increments
/// `out_after`, with `r` the labels it was recorded under: its path is
/// offered to the path registry, its visitor is counted in the current
/// salt period, its dimension labels and custom event label are bounded by
/// their registries, and its observations and custom properties are
/// recorded.
pub open spec fn accepted_recorded(
    s0: AppState,
    event: Event,
    event_domain: Seq<char>,
    client_ip_text: Seq<char>,
    user_agent: Seq<char>,
    out_before: Seq<(Counter, Seq<Seq<char>>, u64)>,
    r: Accepted,
    after: AppState,
    out_after: Seq<(Counter, Seq<Seq<char>>, u64)>,
) -> bool {
    let collect = s0.collect();
    let bp = s0.spec_config().limits.device_breakpoints;
    let path = path_outcome(s0, event.spec_path());
    let referrer = referrer_outcome(s0, event.referrer@, event_domain);
    let reqs = dimension_requests(
        collect,
        acquisition_url(event, event.spec_path()),
        event.referrer@,
        event_domain,
        user_agent,
        event.width,
        bp,
    );
    let f = dims_from(s0, reqs);
    let pv = pageview_event(event.spec_event_name());
    let ev = if pv {
        (None, s0.custom_events().values(), Seq::empty())
    } else {
        event_outcome(s0, event.spec_event_name())
    };
    let c = observation_chain(collect, (f.2, f.3), label_values_of(collect, r.labels), event, pv, ev.0);
    let before = out_before + path.2 + referrer.2 + f.4 + ev.2;
    &&& offered_to(after.paths(), s0.paths(), normalize_path(s0.path_rules(), event.spec_path()))
    &&& after.referrers().capacity() == s0.referrers().capacity()
    &&& after.dimensions().capacity() == s0.dimensions().capacity()
    &&& after.custom_events().capacity() == s0.custom_events().capacity()
    &&& after.property_keys().capacity() == s0.property_keys().capacity()
    &&& after.property_values().capacity() == s0.property_values().capacity()
    &&& (s0.recorder().estimator() is None ==> after.recorder().estimator() is None)
    &&& (s0.recorder().estimator() matches Some(u) ==> (after.recorder().estimator() matches Some(w)
        && w.rotation() == u.rotation() && ({
        let rotated = if w.key() == u.key() {
            u.visitors()
        } else {
            Set::<u32>::empty()
        };
        inserted_into(rotated, visitor_element(client_ip_text, user_agent, w.salt()), w.visitors())
    })))
    &&& r.labels.path@ == path.0
    &&& opt_view(r.labels.country) == (if collect.country { Some("unknown"@) } else { None })
    &&& opt_view(r.labels.device) == (if collect.device { Some(device_class(event.width, user_agent, bp)) } else { None })
    &&& opt_view(r.labels.domain) == (if collect.domain { Some(event_domain) } else { None })
    &&& opt_view(r.labels.referrer) == referrer.0
    &&& bounded_dims_of(r.labels) == f.0
    &&& opt_view(r.event_label) == ev.0
    &&& after.paths().values() == path.1
    &&& after.referrers().values() == referrer.1
    &&& after.dimensions().values() == f.1
    &&& after.custom_events().values() == ev.1
    &&& observations_recorded(s0, c, pv, ev.0, event.raw_properties(), before, after, out_after)
}

/// Records an accepted event: admits its path, counts the visitor, builds
/// its dimension labels and records its pageview or event, session,
/// engagement and custom properties.
#[verifier::rlimit(100)]
#[verifier::spinoff_prover]
pub fn record_accepted(
    state: &mut AppState,
    event: &Event,
    event_domain: &str,
    client_ip_text: &str,
    user_agent: &str,
    out: &mut Vec<Increment>,
) -> (r: Accepted)
    requires
        old(state).wf(),
    ensures
        final(state).same_setup(old(state)),
        final(state).same_limiters(old(state)),
        final(state).wf(),
        arity_ok(increments_view(old(out)@), old(state).collect()) ==> arity_ok(
            increments_view(final(out)@),
            old(state).collect(),
        ),
        accepted_recorded(
            *old(state),
            *event,
            event_domain@,
            client_ip_text@,
            user_agent@,
            increments_view(old(out)@),
            r,
            *final(state),
            increments_view(final(out)@),
        ),
{
    let ghost s0 = *state;
    let ghost o0 = increments_view(out@);
    let event_path = event.path();
    let normalized_path = admit_path(state, event_path.as_str(), out);
    let ghost o1 = increments_view(out@);
    state.metrics.add_unique(client_ip_text, user_agent);
    let ghost s1 = *state;
    let labels = metric_labels(
        state,
        event,
        event_path.as_str(),
        event_domain,
        normalized_path,
        user_agent,
        out,
    );
    let ghost o2 = increments_view(out@);
    let ghost s2 = *state;
    let event_name = event.event_name();
    let is_pageview = is_pageview_event(event_name.as_str());
    let event_label = if !is_pageview {
        bounded_event_label(state, event_name.as_str(), out)
    } else {
        None
    };
    let ghost o3 = increments_view(out@);
    let ghost s3 = *state;
    proof {
        let path = path_outcome(s0, event.spec_path());
        assert(labels.path@ == path.0);
        assert(s2.paths().values() == path.1);
        assert(o1 =~= o0 + path.2);
        let referrer = referrer_outcome(s0, event.referrer@, event_domain@);
        assert(opt_view(labels.referrer) == referrer.0);
        assert(s2.referrers().values() == referrer.1);
        let ev = if is_pageview {
            (None, s0.custom_events().values(), Seq::empty())
        } else {
            event_outcome(s0, event.spec_event_name())
        };
        assert(opt_view(event_label) == ev.0);
        assert(s3.custom_events().values() == ev.1);
        assert(o3 =~= o2 + ev.2);
        let collect = s0.collect();
        let reqs = dimension_requests(
            collect,
            acquisition_url(*event, event.spec_path()),
            event.referrer@,
            event_domain@,
            user_agent@,
            event.width,
            s0.spec_config().limits.device_breakpoints,
        );
        let f = dims_from(s0, reqs);
        assert(s3.recorder().admitted() == f.2);
        assert(s3.recorder().spent() == f.3);
        assert(s3.property_keys() == s0.property_keys());
        assert(s3.property_values() == s0.property_values());
        assert(o3 =~= o0 + path.2 + referrer.2 + f.4 + ev.2);
    }
    record_observations(state, event, &labels, is_pageview, &event_label, out);
    proof {
        let collect = s0.collect();
        assert(s3.collect() == collect);
        assert(is_pageview == pageview_event(event.spec_event_name()));
        let reqs = dimension_requests(
            collect,
            acquisition_url(*event, event.spec_path()),
            event.referrer@,
            event_domain@,
            user_agent@,
            event.width,
            s0.spec_config().limits.device_breakpoints,
        );
        let f = dims_from(s0, reqs);
        let ev = if is_pageview {
            (None, s0.custom_events().values(), Seq::empty())
        } else {
            event_outcome(s0, event.spec_event_name())
        };
        let c = observation_chain(
            collect,
            (f.2, f.3),
            label_values_of(collect, labels),
            *event,
            is_pageview,
            ev.0,
        );
        assert(c == observation_chain(
            s3.collect(),
            (s3.recorder().admitted(), s3.recorder().spent()),
            label_values_of(s3.collect(), labels),
            *event,
            is_pageview,
            opt_view(event_label),
        ));
        let before = o0 + path_outcome(s0, event.spec_path()).2 + referrer_outcome(
            s0,
            event.referrer@,
            event_domain@,
        ).2 + f.4 + ev.2;
        assert(o3 =~= before);
        assert(observations_recorded(
            s0,
            c,
            is_pageview,
            ev.0,
            event.raw_properties(),
            before,
            *state,
            increments_view(out@),
        ));
    }
    Accepted { labels, event_label }
}

/// Handles one analytics event from `client_ip` (written `client_ip_text`
/// for visitor hashing), after the limiter and sampling, and returns the
/// response status. `sampled_out` is the sampling draw's verdict. The
/// increments to apply to the exported counters are appended to `out`.
#[verifier::rlimit(60)]
pub fn ingest(
    state: &mut AppState,
    event: &Event,
    client_ip: ClientIp,
    client_ip_text: &str,
    user_agent: &str,
    sampled_out: bool,
    out: &mut Vec<Increment>,
) -> (r: Status)
    requires
        old(state).wf(),
    ensures
        final(state).same_setup(old(state)),
        final(state).wf(),
        final(state).metrics_limiter() == old(state).metrics_limiter(),
        r == Status::TooManyRequests || r == Status::NoContent || r == Status::BadRequest,
        match old(state).ingestion_limiter() {
            None => final(state).ingestion_limiter() is None && r != Status::TooManyRequests,
            Some(l) => final(state).ingestion_limiter() matches Some(m) && m.limit() == l.limit()
                && m.window() == l.window() && exists|now: u128|
                #![trigger check_step(l.state(), l.limit(), l.window(), client_ip, now)]
                {
                    let step = check_step(l.state(), l.limit(), l.window(), client_ip, now);
                    step.1 == m.state() && (step.0 <==> r != Status::TooManyRequests)
                },
        },
        r == Status::TooManyRequests ==> same_tallies(*final(state), *old(state)) && final(out)@
            == old(out)@,
        r != Status::TooManyRequests && sampled_out ==> r == Status::NoContent && same_tallies(
            *final(state),
            *old(state),
        ) && final(out)@ == old(out)@,
        r != Status::TooManyRequests && !sampled_out ==> (r == Status::BadRequest <==> event_rejection(
            *event,
            old(state).domains(),
        ) is Some),
        r == Status::BadRequest ==> same_tallies(*final(state), *old(state)) && final(out)@
            == old(out)@,
        r != Status::TooManyRequests && !sampled_out && event_rejection(*event, old(state).domains())
            is None ==> {
            &&& r == Status::NoContent
            &&& exists|mid: AppState, a: Accepted|
                #![trigger accepted_recorded(mid, *event, event.spec_domain(), client_ip_text@, user_agent@, increments_view(old(out)@), a, *final(state), increments_view(final(out)@))]
                {
                    &&& mid.same_setup(old(state))
                    &&& same_tallies(mid, *old(state))
                    &&& accepted_recorded(
                        mid,
                        *event,
                        event.spec_domain(),
                        client_ip_text@,
                        user_agent@,
                        increments_view(old(out)@),
                        a,
                        *final(state),
                        increments_view(final(out)@),
                    )
                }
        },
        arity_ok(increments_view(old(out)@), old(state).collect()) ==> arity_ok(
            increments_view(final(out)@),
            old(state).collect(),
        ),
{
    let ghost s0 = *state;
    let ghost o0 = increments_view(out@);
    let collect = state.config.site.collect;
    let limited = match state.ingestion_limiter.take() {
        Some(mut l) => {
            let ok = l.check(client_ip);
            state.ingestion_limiter = Some(l);
            !ok
        },
        None => false,
    };
    if limited {
        return Status::TooManyRequests;
    }
    if sampled_out {
        return Status::NoContent;
    }
    let event_domain = event.normalize_domain();
    let domains = &state.allowed_domains;
    let allowed = |d: &str| -> (b: bool)
        ensures
            b == domains@.contains(d@),
        { domains.contains(d) };
    let verdict = event.validate(allowed);
    if verdict.is_err() {
        return Status::BadRequest;
    }
    assert(event_rejection(*event, s0.domains()) is None);
    let ghost mid = *state;
    let ghost o1 = increments_view(out@);
    let accepted = record_accepted(state, event, event_domain.as_str(), client_ip_text, user_agent, out);
    proof {
        assert(o1 == o0);
        assert(accepted_recorded(
            mid,
            *event,
            event.spec_domain(),
            client_ip_text@,
            user_agent@,
            o0,
            accepted,
            *state,
            increments_view(out@),
        ));
    }
    Status::NoContent
}


// ---------------------------------------------------------------------------
// The metrics endpoint
// ---------------------------------------------------------------------------
/// Admission to the metrics endpoint: the per-address limiter first, then
/// the credentials. `Success` means the metrics may be encoded and served.
pub fn metrics_request(state: &mut AppState, client_ip: ClientIp, authorization: Option<&str>) -> (r: Status)
    ensures
        final(state).same_setup(old(state)),
        same_tallies(*final(state), *old(state)),
        final(state).ingestion_limiter() == old(state).ingestion_limiter(),
        r == Status::TooManyRequests || r == Status::Unauthorized || r == Status::Success,
        match old(state).metrics_limiter() {
            None => final(state).metrics_limiter() is None && r != Status::TooManyRequests,
            Some(l) => final(state).metrics_limiter() matches Some(m) && m.limit() == l.limit()
                && m.window() == l.window() && exists|now: u128|
                #![trigger check_step(l.state(), l.limit(), l.window(), client_ip, now)]
                {
                    let step = check_step(l.state(), l.limit(), l.window(), client_ip, now);
                    step.1 == m.state() && (step.0 <==> r != Status::TooManyRequests)
                },
        },
        r != Status::TooManyRequests ==> (r == Status::Success <==> metrics_access(
            old(state).spec_config().security.metrics_auth,
            opt_str_view(authorization),
        )),
{
    let limited = match state.metrics_limiter.take() {
        Some(mut l) => {
            let ok = l.check(client_ip);
            state.metrics_limiter = Some(l);
            !ok
        },
        None => false,
    };
    if limited {
        return Status::TooManyRequests;
    }
    if !metrics_authorized(&state.config.security.metrics_auth, authorization) {
        return Status::Unauthorized;
    }
    Status::Success
}

/// The text of an optional string slice.
pub open spec fn opt_str_view(o: Option<&str>) -> Option<Seq<char>> {
    match o {
        Some(s) => Some(s@),
        None => None,
    }
}

/// The status of an encoded metrics response of `len` bytes (`None` when
/// encoding failed): served when it fits the response bound.
pub fn metrics_body_status(len: Option<usize>) -> (r: Status)
    ensures
        r == (match len {
            Some(n) if n <= MAX_METRICS_RESPONSE_SIZE => Status::Success,
            _ => Status::InternalServerError,
        }),
{
    match len {
        Some(n) => {
            if n <= MAX_METRICS_RESPONSE_SIZE {
                Status::Success
            } else {
                Status::InternalServerError
            }
        },
        None => Status::InternalServerError,
    }
}


// ---------------------------------------------------------------------------
// Laws of client address resolution
// ---------------------------------------------------------------------------
/// Only requests arriving from a trusted proxy may name their client in
/// forwarding headers: from any other peer, the peer is the client.
pub proof fn untrusted_peer_is_client(
    nets: Seq<ProxyNet>,
    forwarded: Option<Seq<Option<ClientIp>>>,
    real_ip: Option<ClientIp>,
    remote: ClientIp,
)
    requires
        !trusted(nets, remote),
    ensures
        client_address(nets, forwarded, real_ip, remote) == remote,
{
}

proof fn last_untrusted_is_untrusted(nets: Seq<ProxyNet>, forwarded: Seq<Option<ClientIp>>)
    ensures
        last_untrusted(nets, forwarded) matches Some(ip) ==> !trusted(nets, ip)
            && forwarded.contains(Some(ip)),
    decreases forwarded.len(),
{
    if forwarded.len() > 0 {
        last_untrusted_is_untrusted(nets, forwarded.drop_last());
        match last_untrusted(nets, forwarded) {
            Some(ip) => {
                if forwarded.last() == Some(ip) && !trusted(nets, ip) {
                    assert(forwarded[forwarded.len() - 1] == Some(ip));
                } else {
                    let j = choose|j: int| 0 <= j < forwarded.drop_last().len() && forwarded.drop_last()[j] == Some(ip);
                    assert(forwarded[j] == Some(ip));
                }
            },
            None => {},
        }
    }
}

/// A client address taken from a forwarding header is never a trusted
/// proxy, and it is one of the addresses the headers named.
pub proof fn forwarded_client_is_untrusted(
    nets: Seq<ProxyNet>,
    forwarded: Option<Seq<Option<ClientIp>>>,
    real_ip: Option<ClientIp>,
    remote: ClientIp,
)
    ensures
        ({
            let c = client_address(nets, forwarded, real_ip, remote);
            c != remote ==> !trusted(nets, c) && ((forwarded matches Some(f) && f.contains(Some(c)))
                || real_ip == Some(c))
        }),
{
    match forwarded {
        Some(f) => last_untrusted_is_untrusted(nets, f),
        None => {},
    }
}


/// Whether the CORS policy admits any origin: one allowed origin is `*`.
pub fn allows_any_origin(origins: &Vec<String>) -> (r: bool)
    ensures
        r == exists|i: int| 0 <= i < origins@.len() && #[trigger] origins@[i]@ == seq!['*'],
{
    let mut i: usize = 0;
    while i < origins.len()
        invariant
            i <= origins@.len(),
            forall|j: int| 0 <= j < i ==> #[trigger] origins@[j]@ != seq!['*'],
        decreases origins.len() - i,
    {
        proof {
            reveal_strlit("*");
            assert("*"@ =~= seq!['*']);
        }
        if eq_str(&chars_of(origins[i].as_str()), "*") {
            assert(origins@[i as int]@ == seq!['*']);
            return true;
        }
        i += 1;
    }
    false
}

// ---------------------------------------------------------------------------
// Laws of the classifiers and the event bound
// ---------------------------------------------------------------------------
/// A Chromium-based browser is classified as Chrome even though its user
/// agent also names Safari: any user agent whose lowercase form holds
/// `chrome/` and no bot, Edge, Opera or Firefox marker is `chrome`, and a
/// user agent is only ever `safari` when it holds `safari/` and no Chrome,
/// CriOS or Chromium marker.
pub proof fn chrome_outranks_safari(ua: Seq<char>)
    ensures
        ({
            let l = ascii_lower_seq(ua);
            contains(l, "chrome/"@) && !contains(l, "bot"@) && !contains(l, "crawler"@) && !contains(
                l,
                "spider"@,
            ) && !contains(l, "edg/"@) && !contains(l, "edge/"@) && !contains(l, "opr/"@)
                && !contains(l, "opera"@) && !contains(l, "firefox/"@) && !contains(l, "fxios/"@)
                ==> browser_class(ua) == "chrome"@
        }),
        browser_class(ua) == "safari"@ ==> {
            let l = ascii_lower_seq(ua);
            &&& contains(l, "safari/"@)
            &&& !contains(l, "chrome/"@)
            &&& !contains(l, "crios/"@)
            &&& !contains(l, "chromium/"@)
        },
{
    let l = ascii_lower_seq(ua);
    if contains(l, "chrome/"@) {
        assert(l.len() > 0) by {
            let i = choose|i: int| crate::text::contains_at(l, "chrome/"@, i);
            reveal_strlit("chrome/");
        }
    }
    reveal_strlit("safari");
    reveal_strlit("chrome");
    reveal_strlit("unknown");
    reveal_strlit("bot");
    reveal_strlit("edge");
    reveal_strlit("opera");
    reveal_strlit("firefox");
    reveal_strlit("other");
    let safari = "safari"@;
    assert(safari != "chrome"@ && safari != "other"@ && safari != "opera"@) by {
        assert(safari[0] == 's');
    }
    assert(safari != "unknown"@ && safari != "bot"@ && safari != "edge"@ && safari != "firefox"@) by {
        assert(safari.len() == 6);
    }
}

/// An Android phone is a mobile device: a user agent naming `android` and
/// `mobile` (and neither `tablet` nor `ipad`) is classified `mobile` for
/// every viewport width and every breakpoints.
pub proof fn android_phone_is_mobile(width: u16, ua: Seq<char>, bp: DeviceBreakpoints)
    requires
        contains(ascii_lower_seq(ua), "android"@),
        contains(ascii_lower_seq(ua), "mobile"@),
        !contains(ascii_lower_seq(ua), "tablet"@),
        !contains(ascii_lower_seq(ua), "ipad"@),
    ensures
        device_class(width, ua, bp) == "mobile"@,
{
}

/// The event names the beacon script sends on its own.
pub open spec fn beacon_event_name(name: Seq<char>) -> bool {
    ||| name == "engagement"@
    ||| name == "Outbound Link: Click"@
    ||| name == "Cloaked Link: Click"@
    ||| name == "File Download"@
    ||| name == "404"@
    ||| name == "WP Form Completions"@
    ||| name == "Form: Submission"@
}

/// Printable ASCII text takes one byte per character.
proof fn lemma_ascii_utf8_len(s: Seq<char>)
    requires
        forall|i: int| 0 <= i < s.len() ==> (#[trigger] s[i] as u32) < 0x80,
    ensures
        crate::text::utf8_len(s) == s.len(),
    decreases s.len(),
{
    if s.len() > 0 {
        let init = s.drop_last();
        assert forall|i: int| 0 <= i < init.len() implies (#[trigger] init[i] as u32) < 0x80 by {
            assert(init[i] == s[i]);
        }
        lemma_ascii_utf8_len(init);
        assert((s[s.len() - 1] as u32) < 0x80);
    }
}

/// A name of printable ASCII, neither starting nor ending with a space, at
/// most 200 characters long, is its own event label.
proof fn lemma_plain_name_label(s: Seq<char>)
    requires
        0 < s.len() <= 200,
        forall|i: int| 0 <= i < s.len() ==> 0x20 <= #[trigger] (s[i] as u32) <= 0x7E,
        0x21 <= (s[0] as u32),
        0x21 <= (s[s.len() - 1] as u32),
    ensures
        event_label(s) == s,
{
    lemma_ascii_utf8_len(s);
    let first = s[0];
    let last = s[s.len() - 1];
    assert(0x20 <= (first as u32) <= 0x7E && 0x20 <= (last as u32) <= 0x7E);
    assert(!crate::text::is_whitespace(first) && !crate::text::is_whitespace(last));
    assert(crate::text::is_trimmed(s));
    crate::text::lemma_trimmed_fixed(s);
    crate::metrics::lemma_sanitize_fixes_valid_labels(s);
}

/// The beacon's own events are never dropped by the allow-list: each of
/// them is a system event and is its own label, so `bounded_event_label`
/// returns it unchanged whatever the allow-list and registry hold.
pub proof fn beacon_events_pass_the_allow_list(name: Seq<char>)
    requires
        beacon_event_name(name),
    ensures
        system_event(name),
        event_label(name) == name,
{
    reveal_strlit("engagement");
    reveal_strlit("Outbound Link: Click");
    reveal_strlit("Cloaked Link: Click");
    reveal_strlit("File Download");
    reveal_strlit("404");
    reveal_strlit("WP Form Completions");
    reveal_strlit("Form: Submission");
    lemma_plain_name_label(name);
}

} // verus!
