//! Incoming browser analytics events and their validation.
use vstd::prelude::*;

use crate::limits::{
    MAX_ENGAGEMENT_SECONDS_BITS, MAX_EVENT_NAME_LEN, MAX_PATH_LEN, MAX_PROPERTY_KEY_LEN,
    MAX_PROPERTY_VALUE_LEN, MAX_REFERRER_LEN, MAX_WIDTH,
};
use crate::metrics::{other_label, other_string};
use crate::normalize::{url_host, url_host_info};
use crate::text::{
    ascii_lower_seq, chars_of, lower_chars, owned, push_char, push_str, string_of, trim,
    trim_chars, trim_end_char, trim_end_char_chars, trim_str, utf8_len, utf8_len_of,
};

verus! {

/// Validation errors for incoming analytics events.
#[derive(Clone, Copy, Debug, PartialEq, Eq, Structural)]
pub enum EventError {
    MissingDomain,
    DomainNotAllowed,
    MissingPath,
    EventNameTooLong,
    PathTooLong,
    ReferrerTooLong,
    InvalidWidth,
    InvalidEngagement,
    InvalidScrollDepth,
}

/// Beacon payload carried in the compact `p` field.
pub enum PayloadField {
    /// Path string reported in `p`.
    Path(String),
    /// Custom properties reported in `p`, as raw keys with their label values
    /// (`EventProperty::label_value`), in key order.
    Properties(Vec<(String, String)>),
    /// Explicit null payload, treated as missing.
    Null,
    /// Missing payload.
    Empty,
}

/// Legacy engagement-or-name field from the beacon payload.
pub enum EngagementOrLegacyEvent {
    /// Engagement seconds reported in `e`, as the IEEE-754 binary64 bit
    /// pattern of the number.
    Engagement(u64),
    /// Legacy event name reported in `e`.
    LegacyEvent(String),
    /// Missing engagement or legacy event.
    Empty,
}

/// Incoming browser analytics event payload.
pub struct Event {
    /// Beacon domain (`d`).
    pub domain: String,
    /// Full page URL (`u`) used for domain and path fallback.
    pub url: String,
    /// Path string or custom properties (`p`).
    pub payload: PayloadField,
    /// Raw referrer string (`r`).
    pub referrer: String,
    /// Explicit event name (`n`).
    pub name: String,
    /// Engagement seconds or legacy event name (`e`).
    pub engagement: EngagementOrLegacyEvent,
    /// Viewport width in CSS pixels (`w`).
    pub width: u16,
    /// Scroll depth percentage (`sd`).
    pub scroll_depth: u8,
    /// Tab-local new session flag (`s`).
    pub new_session: bool,
}

/// What `url::Url::parse` gives for a string's path, query and fragment,
/// `None` when it does not parse as a URL.
pub uninterp spec fn url_path_parts(s: Seq<char>) -> Option<
    (Seq<char>, Option<Seq<char>>, Option<Seq<char>>),
>;

/// Parses a URL with the `url` crate and returns its path, query and
/// fragment.
#[verifier::external_body]
pub(crate) fn url_parts(s: &str) -> (r: Option<(String, Option<String>, Option<String>)>)
    ensures
        match r {
            Some((p, q, f)) => url_path_parts(s@) == Some(
                (
                    p@,
                    match q {
                        Some(x) => Some(x@),
                        None => None,
                    },
                    match f {
                        Some(x) => Some(x@),
                        None => None,
                    },
                ),
            ),
            None => url_path_parts(s@) is None,
        },
{
    let url = url::Url::parse(s).ok()?;
    Some((url.path().to_owned(), url.query().map(str::to_owned), url.fragment().map(str::to_owned)))
}

/// A domain after trimming whitespace and trailing dots and lowercasing.
pub open spec fn clean_domain(d: Seq<char>) -> Seq<char> {
    ascii_lower_seq(trim_end_char(trim(d), '.'))
}

/// The binary64 value with these bits is greater than zero (`+inf`
/// included).
pub open spec fn positive_bits(bits: u64) -> bool {
    1 <= bits <= 0x7FF0_0000_0000_0000
}

/// The binary64 value with these bits is finite and lies in
/// `(0, 86400]`.
pub open spec fn valid_engagement_bits(bits: u64) -> bool {
    1 <= bits <= MAX_ENGAGEMENT_SECONDS_BITS
}

pub open spec fn opt_view(o: Option<String>) -> Option<Seq<char>> {
    match o {
        Some(s) => Some(s@),
        None => None,
    }
}

impl Event {
    /// The domain `normalize_domain` returns.
    pub open spec fn spec_domain(&self) -> Seq<char> {
        let d = clean_domain(self.domain@);
        if d.len() > 0 {
            d
        } else {
            match url_host_info(self.url@) {
                Some((host, _)) => clean_domain(host),
                None => Seq::empty(),
            }
        }
    }

    /// The path `path` returns.
    pub open spec fn spec_path(&self) -> Seq<char> {
        match self.payload {
            PayloadField::Path(p) => trim(p@),
            _ => match url_path_parts(self.url@) {
                Some((p, q, f)) => {
                    let with_query = match q {
                        Some(q) => p.push('?') + q,
                        None => p,
                    };
                    match f {
                        Some(f) => with_query.push('#') + f,
                        None => with_query,
                    }
                },
                None => trim(self.url@),
            },
        }
    }

    /// The event name `event_name` returns.
    pub open spec fn spec_event_name(&self) -> Seq<char> {
        let n = trim(self.name@);
        if n.len() > 0 {
            n
        } else {
            match self.engagement {
                EngagementOrLegacyEvent::LegacyEvent(e) => trim(e@),
                _ => Seq::empty(),
            }
        }
    }

    /// Returns the event domain, falling back to the host from `u` when `d` is
    /// absent.
    pub fn normalize_domain(&self) -> (r: String)
        ensures
            r@ == self.spec_domain(),
    {
        let d = lower_chars(&trim_end_char_chars(&trim_chars(&chars_of(self.domain.as_str())), '.'));
        if d.len() > 0 {
            return string_of(&d);
        }
        match url_host(self.url.as_str()) {
            Some((host, _)) => {
                let h = lower_chars(
                    &trim_end_char_chars(&trim_chars(&chars_of(host.as_str())), '.'),
                );
                string_of(&h)
            },
            None => String::new(),
        }
    }

    /// Returns the reported path, falling back to the parsed URL path.
    pub fn path(&self) -> (r: String)
        ensures
            r@ == self.spec_path(),
    {
        if let PayloadField::Path(p) = &self.payload {
            return trim_str(p.as_str());
        }
        match url_parts(self.url.as_str()) {
            Some((p, q, f)) => {
                let mut path = p;
                if let Some(q) = q {
                    push_char(&mut path, '?');
                    push_str(&mut path, q.as_str());
                }
                if let Some(f) = f {
                    push_char(&mut path, '#');
                    push_str(&mut path, f.as_str());
                }
                path
            },
            None => trim_str(self.url.as_str()),
        }
    }

    /// Returns the raw referrer string from the payload.
    pub fn referrer(&self) -> (r: &str)
        ensures
            r@ == self.referrer@,
    {
        self.referrer.as_str()
    }

    /// Returns the raw page URL string from the payload.
    pub fn url(&self) -> (r: &str)
        ensures
            r@ == self.url@,
    {
        self.url.as_str()
    }

    /// Returns the normalized event name, including the legacy string `e`
    /// field.
    pub fn event_name(&self) -> (r: String)
        ensures
            r@ == self.spec_event_name(),
    {
        let name = trim_str(self.name.as_str());
        if !name.as_str().is_empty() {
            return name;
        }
        match &self.engagement {
            EngagementOrLegacyEvent::LegacyEvent(event) => trim_str(event.as_str()),
            _ => String::new(),
        }
    }

    /// What `engagement_seconds` returns.
    pub open spec fn engagement_seconds_spec(&self) -> Option<u64> {
        match self.engagement {
            EngagementOrLegacyEvent::Engagement(bits) => if positive_bits(bits) {
                Some(bits)
            } else {
                None
            },
            _ => None,
        }
    }

    /// Returns the positive engagement duration reported, as the bit pattern
    /// of the binary64 number of seconds.
    pub fn engagement_seconds(&self) -> (r: Option<u64>)
        ensures
            r == self.engagement_seconds_spec(),
    {
        match &self.engagement {
            EngagementOrLegacyEvent::Engagement(bits) => {
                if 1 <= *bits && *bits <= 0x7FF0_0000_0000_0000 {
                    Some(*bits)
                } else {
                    None
                }
            },
            _ => None,
        }
    }

    /// Returns the reported viewport width in CSS pixels, or zero when absent.
    pub fn width(&self) -> (r: u16)
        ensures
            r == self.width,
    {
        self.width
    }

    /// Returns the reported scroll depth percentage.
    pub fn scroll_depth(&self) -> (r: u8)
        ensures
            r == self.scroll_depth,
    {
        self.scroll_depth
    }

    /// Returns whether the browser reported a new tab-local session.
    pub fn is_new_session(&self) -> (r: bool)
        ensures
            r == self.new_session,
    {
        self.new_session
    }

    /// The first bound that the payload breaks, in the order checked.
    pub open spec fn spec_bounds_error(&self) -> Option<EventError> {
        let path = self.spec_path();
        if path.len() == 0 {
            Some(EventError::MissingPath)
        } else if utf8_len(path) > MAX_PATH_LEN {
            Some(EventError::PathTooLong)
        } else if utf8_len(self.spec_event_name()) > MAX_EVENT_NAME_LEN {
            Some(EventError::EventNameTooLong)
        } else if utf8_len(self.referrer@) > MAX_REFERRER_LEN {
            Some(EventError::ReferrerTooLong)
        } else if self.width > MAX_WIDTH {
            Some(EventError::InvalidWidth)
        } else if (match self.engagement {
            EngagementOrLegacyEvent::Engagement(bits) => !valid_engagement_bits(bits),
            _ => false,
        }) {
            Some(EventError::InvalidEngagement)
        } else if self.scroll_depth > 100 {
            Some(EventError::InvalidScrollDepth)
        } else {
            None
        }
    }

    fn validate_bounds(&self) -> (r: Result<(), EventError>)
        ensures
            match r {
                Ok(()) => self.spec_bounds_error() is None,
                Err(e) => self.spec_bounds_error() == Some(e),
            },
    {
        let path = chars_of(self.path().as_str());
        if path.len() == 0 {
            return Err(EventError::MissingPath);
        }
        if utf8_len_of(&path) > MAX_PATH_LEN {
            return Err(EventError::PathTooLong);
        }
        if utf8_len_of(&chars_of(self.event_name().as_str())) > MAX_EVENT_NAME_LEN {
            return Err(EventError::EventNameTooLong);
        }
        if utf8_len_of(&chars_of(self.referrer.as_str())) > MAX_REFERRER_LEN {
            return Err(EventError::ReferrerTooLong);
        }
        if self.width > MAX_WIDTH {
            return Err(EventError::InvalidWidth);
        }
        self.validate_telemetry()?;
        if self.scroll_depth > 100 {
            return Err(EventError::InvalidScrollDepth);
        }
        Ok(())
    }

    fn validate_telemetry(&self) -> (r: Result<(), EventError>)
        ensures
            r == (match self.engagement {
                EngagementOrLegacyEvent::Engagement(bits) => if valid_engagement_bits(bits) {
                    Ok(())
                } else {
                    Err(EventError::InvalidEngagement)
                },
                _ => Ok(()),
            }),
    {
        if let EngagementOrLegacyEvent::Engagement(bits) = &self.engagement {
            if !(1 <= *bits && *bits <= MAX_ENGAGEMENT_SECONDS_BITS) {
                return Err(EventError::InvalidEngagement);
            }
        }
        Ok(())
    }

    /// Checks domain authorization and payload bounds before ingestion.
    ///
    /// An empty domain is `MissingDomain`; a domain that `domain_allowed`
    /// refuses is `DomainNotAllowed`; otherwise the first broken bound is
    /// returned.
    pub fn validate<F: FnOnce(&str) -> bool>(&self, domain_allowed: F) -> (r: Result<(), EventError>)
        requires
            forall|d: &str| call_requires(domain_allowed, (d,)),
        ensures
            self.spec_domain().len() == 0 ==> r == Err::<(), EventError>(EventError::MissingDomain),
            self.spec_domain().len() > 0 ==> (exists|d: &str, allowed: bool|
                d@ == self.spec_domain() && call_ensures(domain_allowed, (d,), allowed) && if allowed {
                    r == match self.spec_bounds_error() {
                        Some(e) => Err(e),
                        None => Ok(()),
                    }
                } else {
                    r == Err::<(), EventError>(EventError::DomainNotAllowed)
                }),
    {
        let domain = self.normalize_domain();
        if domain.as_str().is_empty() {
            return Err(EventError::MissingDomain);
        }
        let d = domain.as_str();
        let allowed = domain_allowed(d);
        if !allowed {
            return Err(EventError::DomainNotAllowed);
        }
        let r = self.validate_bounds();
        proof {
            match r {
                Ok(u) => {
                    assert(u == ());
                    assert(self.spec_bounds_error() is None);
                },
                Err(e) => {
                    assert(self.spec_bounds_error() == Some(e));
                },
            }
        }
        assert(r == match self.spec_bounds_error() {
            Some(e) => Err(e),
            None => Ok::<(), EventError>(()),
        });
        assert(d@ == self.spec_domain() && call_ensures(domain_allowed, (d,), allowed));
        r
    }
}


// ---------------------------------------------------------------------------
// Custom properties
// ---------------------------------------------------------------------------
/// Strict lexicographic order on character sequences (`String`'s `Ord`,
/// which compares UTF-8 bytes and so code points).
pub open spec fn lex_lt(a: Seq<char>, b: Seq<char>) -> bool
    decreases a.len(),
{
    if a.len() == 0 {
        b.len() > 0
    } else if b.len() == 0 {
        false
    } else if a[0] != b[0] {
        (a[0] as int) < (b[0] as int)
    } else {
        lex_lt(a.drop_first(), b.drop_first())
    }
}

pub proof fn lemma_lex_irreflexive(a: Seq<char>)
    ensures
        !lex_lt(a, a),
    decreases a.len(),
{
    if a.len() > 0 {
        lemma_lex_irreflexive(a.drop_first());
    }
}

pub proof fn lemma_lex_total(a: Seq<char>, b: Seq<char>)
    ensures
        a == b || lex_lt(a, b) || lex_lt(b, a),
        !(lex_lt(a, b) && lex_lt(b, a)),
    decreases a.len(),
{
    if a.len() > 0 && b.len() > 0 {
        lemma_lex_total(a.drop_first(), b.drop_first());
        if a[0] == b[0] && a.drop_first() == b.drop_first() {
            assert(a =~= seq![a[0]] + a.drop_first());
            assert(b =~= seq![b[0]] + b.drop_first());
        }
    } else if a.len() == 0 && b.len() == 0 {
        assert(a =~= b);
    }
}

pub proof fn lemma_lex_transitive(a: Seq<char>, b: Seq<char>, c: Seq<char>)
    requires
        lex_lt(a, b),
        lex_lt(b, c),
    ensures
        lex_lt(a, c),
    decreases a.len(),
{
    if a.len() > 0 && b.len() > 0 && c.len() > 0 {
        if a[0] == b[0] && b[0] == c[0] {
            lemma_lex_transitive(a.drop_first(), b.drop_first(), c.drop_first());
        }
    }
}

/// Result of comparing two keys.
#[derive(Clone, Copy, Debug, PartialEq, Eq, Structural)]
pub enum KeyOrder {
    Less,
    Equal,
    Greater,
}

/// Compares two character sequences lexicographically.
pub fn compare_keys(a: &Vec<char>, b: &Vec<char>) -> (r: KeyOrder)
    ensures
        (r == KeyOrder::Less) == lex_lt(a@, b@),
        (r == KeyOrder::Equal) == (a@ == b@),
        (r == KeyOrder::Greater) == lex_lt(b@, a@),
{
    proof {
        lemma_lex_total(a@, b@);
        lemma_lex_irreflexive(a@);
    }
    let mut i: usize = 0;
    assert(a@.skip(0) =~= a@);
    assert(b@.skip(0) =~= b@);
    while i < a.len() && i < b.len()
        invariant
            i <= a.len(),
            i <= b.len(),
            a@.take(i as int) == b@.take(i as int),
            lex_lt(a@, b@) == lex_lt(a@.skip(i as int), b@.skip(i as int)),
            lex_lt(b@, a@) == lex_lt(b@.skip(i as int), a@.skip(i as int)),
        decreases a.len() - i,
    {
        assert(a@.skip(i as int)[0] == a@[i as int]);
        assert(b@.skip(i as int)[0] == b@[i as int]);
        if a[i] != b[i] {
            assert(a@ != b@) by {
                if a@ == b@ {
                    assert(a@[i as int] == b@[i as int]);
                }
            }
            if a[i] < b[i] {
                return KeyOrder::Less;
            } else {
                return KeyOrder::Greater;
            }
        }
        assert(a@.skip(i as int).drop_first() =~= a@.skip(i + 1));
        assert(b@.skip(i as int).drop_first() =~= b@.skip(i + 1));
        assert(a@.take(i + 1) =~= a@.take(i as int).push(a@[i as int]));
        assert(b@.take(i + 1) =~= b@.take(i as int).push(b@[i as int]));
        i += 1;
    }
    if a.len() == b.len() {
        assert(a@ =~= a@.take(i as int));
        assert(b@ =~= b@.take(i as int));
        KeyOrder::Equal
    } else if a.len() < b.len() {
        assert(a@ != b@);
        KeyOrder::Less
    } else {
        assert(a@ != b@);
        KeyOrder::Greater
    }
}

pub open spec fn pair_views(v: Seq<(String, String)>) -> Seq<(Seq<char>, Seq<char>)> {
    v.map_values(|e: (String, String)| (e.0@, e.1@))
}

/// Keys strictly increasing.
pub open spec fn sorted_keys(p: Seq<(Seq<char>, Seq<char>)>) -> bool {
    forall|i: int, j: int| 0 <= i < j < p.len() ==> lex_lt(p[i].0, p[j].0)
}

/// Whether the entry at `i` carries the key `k`.
pub open spec fn key_at(p: Seq<(Seq<char>, Seq<char>)>, k: Seq<char>, i: int) -> bool {
    0 <= i < p.len() && p[i].0 == k
}

/// The value stored under a key, if any.
pub open spec fn lookup(p: Seq<(Seq<char>, Seq<char>)>, k: Seq<char>) -> Option<Seq<char>> {
    if exists|i: int| key_at(p, k, i) {
        Some(p[choose|i: int| key_at(p, k, i)].1)
    } else {
        None
    }
}

proof fn lemma_lookup_at(p: Seq<(Seq<char>, Seq<char>)>, i: int)
    requires
        sorted_keys(p),
        0 <= i < p.len(),
    ensures
        lookup(p, p[i].0) == Some(p[i].1),
{
    let k = p[i].0;
    assert(key_at(p, k, i));
    let j = choose|i: int| key_at(p, k, i);
    lemma_lex_irreflexive(k);
    if j < i {
        assert(lex_lt(p[j].0, p[i].0));
    } else if i < j {
        assert(lex_lt(p[i].0, p[j].0));
    }
    assert(j == i);
}

/// The key a raw property key is exported under.
pub open spec fn bounded_key(k: Seq<char>) -> Seq<char> {
    let t = trim(k);
    if utf8_len(t) > MAX_PROPERTY_KEY_LEN {
        other_label()
    } else {
        t
    }
}

/// The value a property label value is exported as.
pub open spec fn bounded_value(v: Seq<char>) -> Seq<char> {
    let t = trim(v);
    if utf8_len(t) > MAX_PROPERTY_VALUE_LEN {
        other_label()
    } else {
        t
    }
}

/// The value that the last kept property with key `k` leaves, scanning the
/// raw properties in order.
pub open spec fn last_value(raw: Seq<(Seq<char>, Seq<char>)>, k: Seq<char>) -> Option<Seq<char>>
    decreases raw.len(),
{
    if raw.len() == 0 {
        None
    } else {
        let (rk, rv) = raw.last();
        let key = bounded_key(rk);
        let value = bounded_value(rv);
        if key.len() > 0 && value.len() > 0 && key == k {
            Some(value)
        } else {
            last_value(raw.drop_last(), k)
        }
    }
}

/// Custom properties keyed and ordered like a `BTreeMap<String, String>`.
pub struct Properties {
    entries: Vec<(String, String)>,
}

impl Properties {
    /// The entries in key order.
    pub closed spec fn pairs(&self) -> Seq<(Seq<char>, Seq<char>)> {
        pair_views(self.entries@)
    }

    #[verifier::type_invariant]
    spec fn ordered(&self) -> bool {
        sorted_keys(pair_views(self.entries@))
    }

    /// An empty property map.
    pub fn new() -> (r: Self)
        ensures
            r.pairs() == Seq::<(Seq<char>, Seq<char>)>::empty(),
    {
        let r = Properties { entries: Vec::new() };
        assert(pair_views(r.entries@) =~= Seq::<(Seq<char>, Seq<char>)>::empty());
        r
    }

    /// Number of properties.
    pub fn len(&self) -> (n: usize)
        ensures
            n == self.pairs().len(),
    {
        self.entries.len()
    }

    /// Whether there are no properties.
    pub fn is_empty(&self) -> (b: bool)
        ensures
            b == (self.pairs().len() == 0),
    {
        self.entries.len() == 0
    }

    /// The `i`-th property in key order.
    pub fn entry(&self, i: usize) -> (r: (&str, &str))
        requires
            i < self.pairs().len(),
        ensures
            r.0@ == self.pairs()[i as int].0,
            r.1@ == self.pairs()[i as int].1,
    {
        let e = &self.entries[i];
        (e.0.as_str(), e.1.as_str())
    }

    /// The value stored under `key`.
    pub fn get(&self, key: &str) -> (r: Option<&String>)
        ensures
            match r {
                Some(v) => lookup(self.pairs(), key@) == Some(v@),
                None => lookup(self.pairs(), key@) is None,
            },
    {
        proof {
            use_type_invariant(self);
        }
        let k = chars_of(key);
        let mut i: usize = 0;
        while i < self.entries.len()
            invariant
                i <= self.entries.len(),
                k@ == key@,
                sorted_keys(self.pairs()),
                forall|j: int| 0 <= j < i ==> self.pairs()[j].0 != key@,
            decreases self.entries.len() - i,
        {
            if crate::text::chars_eq(&chars_of(self.entries[i].0.as_str()), &k) {
                proof {
                    lemma_lookup_at(self.pairs(), i as int);
                }
                return Some(&self.entries[i].1);
            }
            i += 1;
        }
        None
    }

    /// Whether a value is stored under `key`.
    pub fn contains_key(&self, key: &str) -> (b: bool)
        ensures
            b == (lookup(self.pairs(), key@) is Some),
    {
        self.get(key).is_some()
    }

    /// Stores `value` under `key`, replacing any earlier value.
    pub fn insert(&mut self, key: String, value: String)
        ensures
            forall|k: Seq<char>|
                lookup(final(self).pairs(), k) == if k == key@ {
                    Some(value@)
                } else {
                    lookup(old(self).pairs(), k)
                },
    {
        proof {
            use_type_invariant(&*self);
        }
        let ghost old_pairs = self.pairs();
        let k = chars_of(key.as_str());
        let mut i: usize = 0;
        while i < self.entries.len()
            invariant
                i <= self.entries.len(),
                k@ == key@,
                self.pairs() == old_pairs,
                sorted_keys(old_pairs),
                forall|j: int| 0 <= j < i ==> lex_lt(#[trigger] old_pairs[j].0, key@),
            ensures
                i <= self.entries.len(),
                self.pairs() == old_pairs,
                forall|j: int| 0 <= j < i ==> lex_lt(#[trigger] old_pairs[j].0, key@),
                i < self.entries.len() ==> !lex_lt(old_pairs[i as int].0, key@),
            decreases self.entries.len() - i,
        {
            match compare_keys(&chars_of(self.entries[i].0.as_str()), &k) {
                KeyOrder::Less => {
                    i += 1;
                },
                _ => {
                    break;
                },
            }
        }
        let mut entries = Vec::new();
        std::mem::swap(&mut entries, &mut self.entries);
        let ghost new_pair = (key@, value@);
        if i < entries.len() && crate::text::chars_eq(&chars_of(entries[i].0.as_str()), &k) {
            entries[i] = (key, value);
            let ghost p = pair_views(entries@);
            assert(p =~= old_pairs.update(i as int, new_pair));
            assert(old_pairs[i as int].0 == key@);
            assert forall|j: int| 0 <= j < p.len() implies #[trigger] p[j].0 == old_pairs[j].0 by {}
            assert(sorted_keys(p));
            assert forall|kk: Seq<char>|
                lookup(p, kk) == if kk == key@ {
                    Some(value@)
                } else {
                    lookup(old_pairs, kk)
                } by {
                if kk == key@ {
                    lemma_lookup_at(p, i as int);
                } else {
                    if exists|j: int| key_at(old_pairs, kk, j) {
                        let j = choose|j: int| key_at(old_pairs, kk, j);
                        lemma_lookup_at(old_pairs, j);
                        lemma_lookup_at(p, j);
                    } else {
                        assert forall|j: int| !key_at(p, kk, j) by {
                            if key_at(p, kk, j) {
                                assert(key_at(old_pairs, kk, j));
                            }
                        }
                    }
                }
            }
        } else {
            proof {
                if i < entries@.len() {
                    lemma_lex_total(old_pairs[i as int].0, key@);
                }
            }
            entries.insert(i, (key, value));
            let ghost p = pair_views(entries@);
            assert(p =~= old_pairs.insert(i as int, new_pair));
            assert(sorted_keys(p)) by {
                assert forall|a: int, b: int| 0 <= a < b < p.len() implies lex_lt(p[a].0, p[b].0) by {
                    if b == i {
                        assert(lex_lt(old_pairs[a].0, key@));
                    } else if a == i {
                        assert(lex_lt(key@, old_pairs[i as int].0));
                        if b - 1 > i {
                            assert(lex_lt(old_pairs[i as int].0, old_pairs[b - 1].0));
                            lemma_lex_transitive(key@, old_pairs[i as int].0, old_pairs[b - 1].0);
                        }
                    } else if a < i && b > i {
                        assert(lex_lt(old_pairs[a].0, old_pairs[b - 1].0));
                    } else if a > i {
                        assert(lex_lt(old_pairs[a - 1].0, old_pairs[b - 1].0));
                    }
                }
            }
            assert forall|kk: Seq<char>|
                lookup(p, kk) == if kk == key@ {
                    Some(value@)
                } else {
                    lookup(old_pairs, kk)
                } by {
                if kk == key@ {
                    lemma_lookup_at(p, i as int);
                } else {
                    if exists|j: int| key_at(old_pairs, kk, j) {
                        let j = choose|j: int| key_at(old_pairs, kk, j);
                        lemma_lookup_at(old_pairs, j);
                        if j < i {
                            lemma_lookup_at(p, j);
                        } else {
                            assert(p[j + 1] == old_pairs[j]);
                            lemma_lookup_at(p, j + 1);
                        }
                    } else {
                        assert forall|j: int| !key_at(p, kk, j) by {
                            if key_at(p, kk, j) {
                                if j < i {
                                    assert(key_at(old_pairs, kk, j));
                                } else if j > i {
                                    assert(key_at(old_pairs, kk, j - 1));
                                }
                            }
                        }
                    }
                }
            }
        }
        self.entries = entries;
    }
}

fn bound_label(s: &str, max: usize) -> (r: String)
    requires
        max < usize::MAX,
    ensures
        r@ == (if utf8_len(trim(s@)) > max {
            other_label()
        } else {
            trim(s@)
        }),
{
    let t = trim_chars(&chars_of(s));
    if utf8_len_of(&t) > max {
        other_string()
    } else {
        string_of(&t)
    }
}

impl Event {
    /// The raw properties: keys with their label values.
    pub open spec fn raw_properties(&self) -> Seq<(Seq<char>, Seq<char>)> {
        match self.payload {
            PayloadField::Properties(v) => pair_views(v@),
            _ => Seq::empty(),
        }
    }

    /// Returns custom properties after trimming and applying per-label bounds.
    ///
    /// Keys longer than the key bound and values longer than the value bound
    /// become `other`; pairs with an empty key or value are dropped; a later
    /// pair overwrites an earlier one with the same key.
    pub fn properties(&self) -> (r: Properties)
        ensures
            sorted_keys(r.pairs()),
            forall|k: Seq<char>| lookup(r.pairs(), k) == last_value(self.raw_properties(), k),
    {
        let mut out = Properties::new();
        match &self.payload {
            PayloadField::Properties(raw) => {
                let ghost rp = pair_views(raw@);
                let mut i: usize = 0;
                while i < raw.len()
                    invariant
                        i <= raw.len(),
                        rp == pair_views(raw@),
                        forall|k: Seq<char>|
                            lookup(out.pairs(), k) == last_value(rp.take(i as int), k),
                    decreases raw.len() - i,
                {
                    let key = bound_label(raw[i].0.as_str(), MAX_PROPERTY_KEY_LEN);
                    let value = bound_label(raw[i].1.as_str(), MAX_PROPERTY_VALUE_LEN);
                    assert(rp.take(i + 1).drop_last() =~= rp.take(i as int));
                    assert(rp.take(i + 1).last() == rp[i as int]);
                    if !key.as_str().is_empty() && !value.as_str().is_empty() {
                        out.insert(key, value);
                    }
                    i += 1;
                }
                assert(rp.take(raw.len() as int) =~= rp);
            },
            _ => {},
        }
        proof {
            use_type_invariant(&out);
        }
        out
    }
}

} // verus!
