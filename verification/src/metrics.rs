//! Label construction and cardinality budgeting for the exported metrics.
use vstd::hash_set::StringHashSet;
use vstd::prelude::*;

use cardinality_estimator_safe::Sketch;

use crate::config::{CollectConfig, Config, ReferrerMode, SaltRotation};
use crate::uniques::{inserted_into, key_text, sketch_estimate, utc_date_of, visitor_element, UniquesEstimator};
use crate::limits::MAX_METRICS_RESPONSE_SIZE;
use crate::text::{
    char_is_control, chars_of, decimal, decimal_chars, is_control, is_trimmed, lemma_trim_is_trimmed,
    lemma_trimmed_fixed, push_char, push_str, slice_chars, string_of, trim, trim_bounds, utf8_len,
    utf8_len_of,
};

verus! {

/// Maximum byte length of a label value before it is collapsed to `other`.
pub const MAX_LABEL_VALUE_LEN: usize = 200;

pub open spec fn other_label() -> Seq<char> {
    seq!['o', 't', 'h', 'e', 'r']
}

/// A fresh `"other"`.
pub fn other_string() -> (s: String)
    ensures
        s@ == other_label(),
{
    let s = crate::text::owned("other");
    proof {
        reveal_strlit("other");
    }
    assert(s@ =~= other_label());
    s
}

/// The label value that `sanitize_label` produces: the trimmed input, or
/// `other` when that is empty, longer than the label bound, or holds a
/// control character.
pub open spec fn sanitized(label: Seq<char>) -> Seq<char> {
    let t = trim(label);
    if utf8_len(t) > MAX_LABEL_VALUE_LEN || t.len() == 0 {
        other_label()
    } else if exists|i: int| 0 <= i < t.len() && is_control(#[trigger] t[i]) {
        other_label()
    } else {
        t
    }
}

/// A value that is safe to export as a Prometheus label.
pub open spec fn is_valid_label(s: Seq<char>) -> bool {
    &&& s.len() > 0
    &&& utf8_len(s) <= MAX_LABEL_VALUE_LEN
    &&& forall|i: int| 0 <= i < s.len() ==> !is_control(#[trigger] s[i])
    &&& is_trimmed(s)
}

/// Sanitizes a user-controlled value before it is used as a Prometheus label.
pub fn sanitize_label(label: &str) -> (r: String)
    ensures
        r@ == sanitized(label@),
{
    let v = chars_of(label);
    let (lo, hi) = trim_bounds(&v);
    let t = slice_chars(&v, lo, hi);
    assert(t@ == trim(label@));
    if utf8_len_of(&t) > MAX_LABEL_VALUE_LEN || t.len() == 0 {
        return other_string();
    }
    let mut i: usize = 0;
    while i < t.len()
        invariant
            i <= t.len(),
            t@ == trim(label@),
            forall|j: int| 0 <= j < i ==> !is_control(#[trigger] t@[j]),
        decreases t.len() - i,
    {
        if char_is_control(t[i]) {
            assert(t@ == trim(label@));
            assert(is_control(t@[i as int]));
            assert(exists|j: int| 0 <= j < t@.len() && is_control(#[trigger] t@[j]));
            return other_string();
        }
        i += 1;
    }
    string_of(&t)
}

proof fn lemma_other_is_valid_label()
    ensures
        is_valid_label(other_label()),
{
    reveal_with_fuel(utf8_len, 6);
    let o = other_label();
    assert(o.drop_last() =~= seq!['o', 't', 'h', 'e']);
    assert(o.drop_last().drop_last() =~= seq!['o', 't', 'h']);
    assert(o.drop_last().drop_last().drop_last() =~= seq!['o', 't']);
    assert(o.drop_last().drop_last().drop_last().drop_last() =~= seq!['o']);
    assert(o.drop_last().drop_last().drop_last().drop_last().drop_last() =~= Seq::<
        char,
    >::empty());
}

/// Every sanitized value is a valid label.
pub proof fn lemma_sanitized_is_valid_label(label: Seq<char>)
    ensures
        is_valid_label(sanitized(label)),
{
    lemma_other_is_valid_label();
    lemma_trim_is_trimmed(label);
}

/// Sanitizing a valid label leaves it unchanged.
pub proof fn lemma_sanitize_fixes_valid_labels(s: Seq<char>)
    requires
        is_valid_label(s),
    ensures
        sanitized(s) == s,
{
    lemma_trimmed_fixed(s);
}

/// Sanitizing twice is the same as sanitizing once.
pub proof fn sanitize_label_idempotent(label: Seq<char>)
    ensures
        sanitized(sanitized(label)) == sanitized(label),
{
    lemma_sanitized_is_valid_label(label);
    lemma_sanitize_fixes_valid_labels(sanitized(label));
}

/// Scroll-depth percentage band label.
pub open spec fn scroll_bucket(depth: u8) -> Seq<char> {
    if depth <= 24 {
        "0"@
    } else if depth <= 49 {
        "25"@
    } else if depth <= 74 {
        "50"@
    } else if depth <= 89 {
        "75"@
    } else if depth <= 99 {
        "90"@
    } else {
        "100"@
    }
}

/// Buckets scroll depth into labeled percentage bands.
pub fn scroll_depth_bucket(depth: u8) -> (r: &'static str)
    ensures
        r@ == scroll_bucket(depth),
{
    if depth <= 24 {
        "0"
    } else if depth <= 49 {
        "25"
    } else if depth <= 74 {
        "50"
    } else if depth <= 89 {
        "75"
    } else if depth <= 99 {
        "90"
    } else {
        "100"
    }
}

pub open spec fn acquisition_names() -> Seq<Seq<char>> {
    seq![
        "referrer_source"@,
        "utm_source"@,
        "utm_medium"@,
        "utm_campaign"@,
        "utm_content"@,
        "utm_term"@,
        "click_id"@,
    ]
}

pub open spec fn when(flag: bool, items: Seq<Seq<char>>) -> Seq<Seq<char>> {
    if flag {
        items
    } else {
        Seq::empty()
    }
}

/// Ordered dimension label names selected by the collection flags.
pub open spec fn label_names(collect: CollectConfig) -> Seq<Seq<char>> {
    seq!["path"@] + when(collect.country, seq!["country"@]) + when(collect.device, seq!["device"@])
        + when(collect.referrer != ReferrerMode::Off, seq!["referrer"@]) + when(
        collect.acquisition,
        acquisition_names(),
    ) + when(collect.browser, seq!["browser"@]) + when(collect.os, seq!["os"@]) + when(
        collect.screen,
        seq!["screen"@],
    ) + when(collect.domain, seq!["domain"@])
}

pub open spec fn str_views(v: Seq<&'static str>) -> Seq<Seq<char>> {
    v.map_values(|s: &'static str| s@)
}

pub open spec fn string_views(v: Seq<String>) -> Seq<Seq<char>> {
    v.map_values(|s: String| s@)
}

fn push_name(names: &mut Vec<&'static str>, name: &'static str)
    ensures
        str_views(final(names)@) == str_views(old(names)@).push(name@),
{
    names.push(name);
    assert(str_views(names@) =~= str_views(old(names)@).push(name@));
}

/// Builds ordered label names from the collection flags.
#[verifier::rlimit(60)]
pub fn metric_label_names(collect: &CollectConfig) -> (r: Vec<&'static str>)
    ensures
        str_views(r@) == label_names(*collect),
{
    let mut labels: Vec<&'static str> = Vec::new();
    push_name(&mut labels, "path");
    let ghost base = str_views(labels@);
    assert(base =~= seq!["path"@]);
    if collect.country {
        push_name(&mut labels, "country");
    }
    assert(str_views(labels@) =~= seq!["path"@] + when(collect.country, seq!["country"@]));
    let ghost s1 = str_views(labels@);
    if collect.device {
        push_name(&mut labels, "device");
    }
    assert(str_views(labels@) =~= s1 + when(collect.device, seq!["device"@]));
    let ghost s2 = str_views(labels@);
    if collect.referrer != ReferrerMode::Off {
        push_name(&mut labels, "referrer");
    }
    assert(str_views(labels@) =~= s2 + when(
        collect.referrer != ReferrerMode::Off,
        seq!["referrer"@],
    ));
    let ghost s3 = str_views(labels@);
    if collect.acquisition {
        push_name(&mut labels, "referrer_source");
        push_name(&mut labels, "utm_source");
        push_name(&mut labels, "utm_medium");
        push_name(&mut labels, "utm_campaign");
        push_name(&mut labels, "utm_content");
        push_name(&mut labels, "utm_term");
        push_name(&mut labels, "click_id");
    }
    assert(str_views(labels@) =~= s3 + when(collect.acquisition, acquisition_names()));
    let ghost s4 = str_views(labels@);
    if collect.browser {
        push_name(&mut labels, "browser");
    }
    assert(str_views(labels@) =~= s4 + when(collect.browser, seq!["browser"@]));
    let ghost s5 = str_views(labels@);
    if collect.os {
        push_name(&mut labels, "os");
    }
    assert(str_views(labels@) =~= s5 + when(collect.os, seq!["os"@]));
    let ghost s6 = str_views(labels@);
    if collect.screen {
        push_name(&mut labels, "screen");
    }
    assert(str_views(labels@) =~= s6 + when(collect.screen, seq!["screen"@]));
    let ghost s7 = str_views(labels@);
    if collect.domain {
        push_name(&mut labels, "domain");
    }
    assert(str_views(labels@) =~= s7 + when(collect.domain, seq!["domain"@]));
    labels
}

/// Dimension labels shared by pageview, event, session, and engagement metrics.
pub struct DimensionLabels {
    pub path: String,
    pub country: Option<String>,
    pub device: Option<String>,
    pub referrer: Option<String>,
    pub referrer_source: Option<String>,
    pub utm_source: Option<String>,
    pub utm_medium: Option<String>,
    pub utm_campaign: Option<String>,
    pub utm_content: Option<String>,
    pub utm_term: Option<String>,
    pub click_id: Option<String>,
    pub browser: Option<String>,
    pub os: Option<String>,
    pub screen: Option<String>,
    pub domain: Option<String>,
}

impl Default for DimensionLabels {
    fn default() -> (r: Self)
        ensures
            r.path@.len() == 0,
            r.country is None,
            r.device is None,
            r.referrer is None,
            r.referrer_source is None,
            r.utm_source is None,
            r.utm_medium is None,
            r.utm_campaign is None,
            r.utm_content is None,
            r.utm_term is None,
            r.click_id is None,
            r.browser is None,
            r.os is None,
            r.screen is None,
            r.domain is None,
    {
        DimensionLabels {
            path: String::new(),
            country: None,
            device: None,
            referrer: None,
            referrer_source: None,
            utm_source: None,
            utm_medium: None,
            utm_campaign: None,
            utm_content: None,
            utm_term: None,
            click_id: None,
            browser: None,
            os: None,
            screen: None,
            domain: None,
        }
    }
}

/// The value of an optional label, or the fallback when it is absent.
pub open spec fn or_fallback(o: Option<String>, fallback: Seq<char>) -> Seq<char> {
    match o {
        Some(s) => s@,
        None => fallback,
    }
}

/// Leading label values: path, country, device and referrer.
pub open spec fn head_values(collect: CollectConfig, l: DimensionLabels) -> Seq<Seq<char>> {
    seq![sanitized(l.path@)] + when(
        collect.country,
        seq![sanitized(or_fallback(l.country, "unknown"@))],
    ) + when(collect.device, seq![sanitized(or_fallback(l.device, "unknown"@))]) + when(
        collect.referrer != ReferrerMode::Off,
        seq![sanitized(or_fallback(l.referrer, "direct"@))],
    )
}

/// Acquisition label values.
pub open spec fn acquisition_values(l: DimensionLabels) -> Seq<Seq<char>> {
    seq![
        sanitized(or_fallback(l.referrer_source, "direct"@)),
        sanitized(or_fallback(l.utm_source, "none"@)),
        sanitized(or_fallback(l.utm_medium, "none"@)),
        sanitized(or_fallback(l.utm_campaign, "none"@)),
        sanitized(or_fallback(l.utm_content, "none"@)),
        sanitized(or_fallback(l.utm_term, "none"@)),
        sanitized(or_fallback(l.click_id, "none"@)),
    ]
}

/// Trailing label values: browser, os, screen and domain.
pub open spec fn tail_values(collect: CollectConfig, l: DimensionLabels) -> Seq<Seq<char>> {
    when(collect.browser, seq![sanitized(or_fallback(l.browser, "unknown"@))]) + when(
        collect.os,
        seq![sanitized(or_fallback(l.os, "unknown"@))],
    ) + when(collect.screen, seq![sanitized(or_fallback(l.screen, "unknown"@))]) + when(
        collect.domain,
        seq![sanitized(or_fallback(l.domain, "unknown"@))],
    )
}

/// Ordered, sanitized label values matching `label_names(collect)`.
pub open spec fn label_values_of(collect: CollectConfig, l: DimensionLabels) -> Seq<Seq<char>> {
    head_values(collect, l) + when(collect.acquisition, acquisition_values(l)) + tail_values(
        collect,
        l,
    )
}

fn sanitized_or(o: &Option<String>, fallback: &str) -> (r: String)
    ensures
        r@ == sanitized(or_fallback(*o, fallback@)),
{
    match o {
        Some(s) => sanitize_label(s.as_str()),
        None => sanitize_label(fallback),
    }
}

fn push_value(values: &mut Vec<String>, v: String)
    ensures
        string_views(final(values)@) == string_views(old(values)@).push(v@),
{
    values.push(v);
    assert(string_views(values@) =~= string_views(old(values)@).push(v@));
}

fn push_head_values(values: &mut Vec<String>, collect: &CollectConfig, labels: &DimensionLabels)
    ensures
        string_views(final(values)@) == string_views(old(values)@) + head_values(*collect, *labels),
{
    let ghost s0 = string_views(values@);
    push_value(values, sanitize_label(labels.path.as_str()));
    let ghost s1 = string_views(values@);
    if collect.country {
        push_value(values, sanitized_or(&labels.country, "unknown"));
    }
    let ghost s2 = string_views(values@);
    if collect.device {
        push_value(values, sanitized_or(&labels.device, "unknown"));
    }
    let ghost s3 = string_views(values@);
    if collect.referrer != ReferrerMode::Off {
        push_value(values, sanitized_or(&labels.referrer, "direct"));
    }
    assert(string_views(values@) =~= s0 + head_values(*collect, *labels));
}

fn push_acquisition_values(values: &mut Vec<String>, labels: &DimensionLabels)
    ensures
        string_views(final(values)@) == string_views(old(values)@) + acquisition_values(*labels),
{
    let ghost s0 = string_views(values@);
    push_value(values, sanitized_or(&labels.referrer_source, "direct"));
    push_value(values, sanitized_or(&labels.utm_source, "none"));
    push_value(values, sanitized_or(&labels.utm_medium, "none"));
    push_value(values, sanitized_or(&labels.utm_campaign, "none"));
    push_value(values, sanitized_or(&labels.utm_content, "none"));
    push_value(values, sanitized_or(&labels.utm_term, "none"));
    push_value(values, sanitized_or(&labels.click_id, "none"));
    assert(string_views(values@) =~= s0 + acquisition_values(*labels));
}

fn push_tail_values(values: &mut Vec<String>, collect: &CollectConfig, labels: &DimensionLabels)
    ensures
        string_views(final(values)@) == string_views(old(values)@) + tail_values(*collect, *labels),
{
    let ghost s0 = string_views(values@);
    if collect.browser {
        push_value(values, sanitized_or(&labels.browser, "unknown"));
    }
    let ghost s1 = string_views(values@);
    if collect.os {
        push_value(values, sanitized_or(&labels.os, "unknown"));
    }
    let ghost s2 = string_views(values@);
    if collect.screen {
        push_value(values, sanitized_or(&labels.screen, "unknown"));
    }
    let ghost s3 = string_views(values@);
    if collect.domain {
        push_value(values, sanitized_or(&labels.domain, "unknown"));
    }
    assert(string_views(values@) =~= s0 + tail_values(*collect, *labels));
}

/// Builds ordered label values matching the configured label names.
pub fn label_values(collect: &CollectConfig, labels: &DimensionLabels) -> (r: Vec<String>)
    ensures
        string_views(r@) == label_values_of(*collect, *labels),
{
    let mut values: Vec<String> = Vec::new();
    assert(string_views(values@) =~= Seq::<Seq<char>>::empty());
    push_head_values(&mut values, collect, labels);
    let ghost s1 = string_views(values@);
    if collect.acquisition {
        push_acquisition_values(&mut values, labels);
    }
    assert(string_views(values@) =~= s1 + when(collect.acquisition, acquisition_values(*labels)));
    push_tail_values(&mut values, collect, labels);
    assert(string_views(values@) =~= label_values_of(*collect, *labels));
    values
}

/// Label values always line up one for one with the label names chosen by
/// the same collection flags.
pub proof fn label_values_match_label_names(collect: CollectConfig, labels: DimensionLabels)
    ensures
        label_values_of(collect, labels).len() == label_names(collect).len(),
{
}

/// Every dimension label value is a valid Prometheus label.
pub proof fn label_values_are_valid_labels(collect: CollectConfig, labels: DimensionLabels)
    ensures
        forall|i: int|
            0 <= i < label_values_of(collect, labels).len() ==> is_valid_label(
                #[trigger] label_values_of(collect, labels)[i],
            ),
{
    let vs = label_values_of(collect, labels);
    assert forall|i: int| 0 <= i < vs.len() implies is_valid_label(#[trigger] vs[i]) by {
        lemma_sanitized_is_valid_label(labels.path@);
        lemma_sanitized_is_valid_label(or_fallback(labels.country, "unknown"@));
        lemma_sanitized_is_valid_label(or_fallback(labels.device, "unknown"@));
        lemma_sanitized_is_valid_label(or_fallback(labels.referrer, "direct"@));
        lemma_sanitized_is_valid_label(or_fallback(labels.referrer_source, "direct"@));
        lemma_sanitized_is_valid_label(or_fallback(labels.utm_source, "none"@));
        lemma_sanitized_is_valid_label(or_fallback(labels.utm_medium, "none"@));
        lemma_sanitized_is_valid_label(or_fallback(labels.utm_campaign, "none"@));
        lemma_sanitized_is_valid_label(or_fallback(labels.utm_content, "none"@));
        lemma_sanitized_is_valid_label(or_fallback(labels.utm_term, "none"@));
        lemma_sanitized_is_valid_label(or_fallback(labels.click_id, "none"@));
        lemma_sanitized_is_valid_label(or_fallback(labels.browser, "unknown"@));
        lemma_sanitized_is_valid_label(or_fallback(labels.os, "unknown"@));
        lemma_sanitized_is_valid_label(or_fallback(labels.screen, "unknown"@));
        lemma_sanitized_is_valid_label(or_fallback(labels.domain, "unknown"@));
    }
}

/// Name and help text of the unique visitor gauge for a rotation period.
pub open spec fn unique_metric(rotation: Option<SaltRotation>) -> (Seq<char>, Seq<char>) {
    match rotation {
        Some(SaltRotation::Hourly) => (
            "web_hourly_unique_visitors"@,
            "Estimated unique visitors for the current hour"@,
        ),
        _ => ("web_daily_unique_visitors"@, "Estimated unique visitors for the current day"@),
    }
}

/// Chooses the unique visitor gauge's name and help text.
pub fn unique_metric_name(rotation: Option<SaltRotation>) -> (r: (&'static str, &'static str))
    ensures
        r.0@ == unique_metric(rotation).0,
        r.1@ == unique_metric(rotation).1,
{
    match rotation {
        Some(SaltRotation::Hourly) => (
            "web_hourly_unique_visitors",
            "Estimated unique visitors for the current hour",
        ),
        _ => ("web_daily_unique_visitors", "Estimated unique visitors for the current day"),
    }
}


/// Bytes reserved in the metrics response for metadata and overflow series.
pub const METADATA_AND_OVERFLOW_RESERVE: usize = 65536;

/// Longest encoding of a binary64 sample value in the text format.
pub const MAX_ENCODED_F64_LEN: usize = 327;

/// Estimated bytes that admitted label sets may take in the metrics response.
pub const SERIES_BYTE_BUDGET: usize = 10420224;

/// Length-prefixed concatenation of the parts: `len ':' part` for each part.
/// Distinct part lists give distinct keys.
pub open spec fn length_prefixed(parts: Seq<Seq<char>>) -> Seq<char>
    decreases parts.len(),
{
    if parts.len() == 0 {
        Seq::empty()
    } else {
        length_prefixed(parts.drop_last()) + decimal(parts.last().len()) + seq![':']
            + parts.last()
    }
}

/// Key identifying one series: a metric name with its label values.
pub open spec fn series_key(metric: Seq<char>, values: Seq<Seq<char>>) -> Seq<char> {
    length_prefixed(seq![metric] + values)
}

/// Estimated encoded bytes of the first `k` label pairs.
pub open spec fn pairs_cost(names: Seq<Seq<char>>, values: Seq<Seq<char>>, k: int) -> int
    decreases k,
{
    if k <= 0 {
        0
    } else {
        pairs_cost(names, values, k - 1) + utf8_len(names[k - 1]) + 4 + 2 * utf8_len(
            values[k - 1],
        )
    }
}

pub open spec fn min_len(a: int, b: int) -> int {
    if a < b {
        a
    } else {
        b
    }
}

/// Estimated encoded bytes of one series: its name, a sample value, and its
/// label pairs (names zipped with values).
pub open spec fn series_cost(metric: Seq<char>, names: Seq<Seq<char>>, values: Seq<Seq<char>>) -> int {
    utf8_len(metric) + MAX_ENCODED_F64_LEN + 3 + pairs_cost(
        names,
        values,
        min_len(names.len() as int, values.len() as int),
    )
}

proof fn lemma_pairs_cost_monotone(names: Seq<Seq<char>>, values: Seq<Seq<char>>, j: int, k: int)
    requires
        0 <= j <= k,
    ensures
        pairs_cost(names, values, j) <= pairs_cost(names, values, k),
    decreases k - j,
{
    if j < k {
        lemma_pairs_cost_monotone(names, values, j, k - 1);
    }
}

/// `n` copies of `other`.
pub open spec fn others(n: nat) -> Seq<Seq<char>> {
    Seq::new(n, |i: int| other_label())
}

/// Budget tracking admitted series and estimated encoded bytes, shared by all
/// metric families.
pub struct SeriesBudget {
    admitted: StringHashSet,
    bytes: usize,
}

impl SeriesBudget {
    #[verifier::type_invariant]
    spec fn within_budget(&self) -> bool {
        self.bytes <= SERIES_BYTE_BUDGET
    }

    /// Keys of the series admitted so far.
    pub closed spec fn admitted(&self) -> Set<Seq<char>> {
        self.admitted@
    }

    /// Estimated bytes of the series admitted so far.
    pub closed spec fn spent(&self) -> nat {
        self.bytes as nat
    }

    /// An empty budget.
    pub fn new() -> (r: Self)
        ensures
            r.admitted() == Set::<Seq<char>>::empty(),
            r.spent() == 0,
    {
        SeriesBudget { admitted: StringHashSet::new(), bytes: 0 }
    }

    /// Admits a label set for a metric against the shared budget.
    ///
    /// A label set already admitted for the metric passes unchanged. A new one
    /// passes and is charged its estimated bytes when they fit in the budget;
    /// otherwise every value becomes `other` and the second result is `true`
    /// (the observation overflowed).
    pub fn bounded_labels(&mut self, metric: &str, label_names: &Vec<&'static str>, values: Vec<String>) -> (r: (Vec<String>, bool))
        ensures
            final(self).spent() <= SERIES_BYTE_BUDGET,
            ({
                let key = series_key(metric@, string_views(values@));
                let cost = series_cost(metric@, str_views(label_names@), string_views(values@));
                if old(self).admitted().contains(key) {
                    &&& r.0@ == values@
                    &&& !r.1
                    &&& final(self).admitted() == old(self).admitted()
                    &&& final(self).spent() == old(self).spent()
                } else if old(self).spent() + cost > SERIES_BYTE_BUDGET {
                    &&& string_views(r.0@) == others(values@.len())
                    &&& r.1
                    &&& final(self).admitted() == old(self).admitted()
                    &&& final(self).spent() == old(self).spent()
                } else {
                    &&& r.0@ == values@
                    &&& !r.1
                    &&& final(self).admitted() == old(self).admitted().insert(key)
                    &&& final(self).spent() == old(self).spent() + cost
                }
            }),
    {
        proof {
            use_type_invariant(&*self);
        }
        let key = series_key_string(metric, &values);
        if self.admitted.contains(key.as_str()) {
            return (values, false);
        }
        match self.charge(metric, label_names, &values) {
            Some(total) => {
                let mut set = StringHashSet::new();
                std::mem::swap(&mut set, &mut self.admitted);
                set.insert(key);
                self.admitted = set;
                self.bytes = total;
                (values, false)
            },
            None => {
                let mut out: Vec<String> = Vec::new();
                let mut i: usize = 0;
                while i < values.len()
                    invariant
                        i <= values.len(),
                        string_views(out@) == others(i as nat),
                    decreases values.len() - i,
                {
                    let ghost before = out@;
                    let o = other_string();
                    out.push(o);
                    assert(string_views(out@) =~= string_views(before).push(o@));
                    assert(string_views(out@) =~= others((i + 1) as nat));
                    i += 1;
                }
                (out, true)
            },
        }
    }

    /// The spent bytes plus the cost of a new series, when that fits in the
    /// budget.
    fn charge(&self, metric: &str, label_names: &Vec<&'static str>, values: &Vec<String>) -> (r: Option<usize>)
        ensures
            ({
                let total = self.spent() + series_cost(
                    metric@,
                    str_views(label_names@),
                    string_views(values@),
                );
                match r {
                    Some(t) => t == total && total <= SERIES_BYTE_BUDGET,
                    None => total > SERIES_BYTE_BUDGET,
                }
            }),
    {
        proof {
            use_type_invariant(self);
        }
        let ghost names = str_views(label_names@);
        let ghost vals = string_views(values@);
        let n = if label_names.len() < values.len() {
            label_names.len()
        } else {
            values.len()
        };
        let ghost full = series_cost(metric@, names, vals);
        proof {
            lemma_pairs_cost_monotone(names, vals, 0, n as int);
        }
        let metric_len = utf8_len_of(&chars_of(metric));
        if metric_len > SERIES_BYTE_BUDGET {
            return None;
        }
        let mut acc: usize = self.bytes + metric_len + MAX_ENCODED_F64_LEN + 3;
        if acc > SERIES_BYTE_BUDGET {
            return None;
        }
        let mut i: usize = 0;
        while i < n
            invariant
                i <= n,
                n == min_len(names.len() as int, vals.len() as int),
                names == str_views(label_names@),
                vals == string_views(values@),
                full == series_cost(metric@, names, vals),
                acc <= SERIES_BYTE_BUDGET,
                acc == self.spent() + utf8_len(metric@) + MAX_ENCODED_F64_LEN + 3 + pairs_cost(
                    names,
                    vals,
                    i as int,
                ),
            decreases n - i,
        {
            let name_len = utf8_len_of(&chars_of(label_names[i]));
            let value_len = utf8_len_of(&chars_of(values[i].as_str()));
            proof {
                lemma_pairs_cost_monotone(names, vals, i + 1, n as int);
            }
            if name_len > SERIES_BYTE_BUDGET || value_len > SERIES_BYTE_BUDGET {
                return None;
            }
            let next = acc + name_len + 4 + 2 * value_len;
            if next > SERIES_BYTE_BUDGET {
                return None;
            }
            acc = next;
            i += 1;
        }
        Some(acc)
    }
}

fn push_length_prefixed(out: &mut Vec<char>, part: &Vec<char>)
    ensures
        final(out)@ == old(out)@ + decimal(part@.len()) + seq![':'] + part@,
{
    let digits = decimal_chars(part.len() as u64);
    let mut j: usize = 0;
    while j < digits.len()
        invariant
            j <= digits.len(),
            out@ == old(out)@ + digits@.take(j as int),
        decreases digits.len() - j,
    {
        out.push(digits[j]);
        assert(digits@.take(j + 1) =~= digits@.take(j as int).push(digits@[j as int]));
        j += 1;
    }
    assert(digits@.take(digits.len() as int) =~= digits@);
    out.push(':');
    let ghost mid = out@;
    let mut k: usize = 0;
    while k < part.len()
        invariant
            k <= part.len(),
            out@ == mid + part@.take(k as int),
        decreases part.len() - k,
    {
        out.push(part[k]);
        assert(part@.take(k + 1) =~= part@.take(k as int).push(part@[k as int]));
        k += 1;
    }
    assert(part@.take(part.len() as int) =~= part@);
}

/// The series key of a metric name and its label values.
pub fn series_key_string(metric: &str, values: &Vec<String>) -> (r: String)
    ensures
        r@ == series_key(metric@, string_views(values@)),
{
    let ghost parts = seq![metric@] + string_views(values@);
    let mut out: Vec<char> = Vec::new();
    let m = chars_of(metric);
    push_length_prefixed(&mut out, &m);
    assert(parts.take(1).drop_last() =~= Seq::<Seq<char>>::empty());
    assert(parts.take(1).last() == metric@);
    assert(length_prefixed(Seq::<Seq<char>>::empty()) =~= Seq::<char>::empty());
    assert(Seq::<char>::empty() + decimal(m@.len()) =~= decimal(m@.len()));
    assert(out@ =~= length_prefixed(parts.take(1)));
    let mut i: usize = 0;
    while i < values.len()
        invariant
            i <= values.len(),
            parts == seq![metric@] + string_views(values@),
            out@ == length_prefixed(parts.take(i + 1)),
        decreases values.len() - i,
    {
        let v = chars_of(values[i].as_str());
        push_length_prefixed(&mut out, &v);
        assert(parts.take(i + 2).drop_last() =~= parts.take(i + 1));
        assert(parts.take(i + 2).last() == values@[i as int]@);
        i += 1;
    }
    assert(parts.take(values.len() + 1) =~= parts);
    string_of(&out)
}


// ---------------------------------------------------------------------------
// Counters and the recorder
// ---------------------------------------------------------------------------
/// Counters fed by the ingestion pipeline.
#[derive(Clone, Copy, Debug, PartialEq, Eq, Structural)]
pub enum Counter {
    Pageviews,
    Events,
    CustomEvents,
    Sessions,
    EngagementSeconds,
    ScrollDepth,
    CustomProperties,
    SeriesOverflow,
    PathOverflow,
    ReferrerOverflow,
    EventOverflow,
    DimensionOverflow,
    BlockedRequests,
}

impl Counter {
    /// Exported metric name.
    pub open spec fn spec_name(self) -> Seq<char> {
        match self {
            Counter::Pageviews => "web_pageviews_total"@,
            Counter::Events => "web_events_total"@,
            Counter::CustomEvents => "web_custom_events_total"@,
            Counter::Sessions => "web_sessions_total"@,
            Counter::EngagementSeconds => "web_engagement_seconds_total"@,
            Counter::ScrollDepth => "web_scroll_depth_total"@,
            Counter::CustomProperties => "web_custom_properties_total"@,
            Counter::SeriesOverflow => "web_series_overflow_total"@,
            Counter::PathOverflow => "web_path_overflow_total"@,
            Counter::ReferrerOverflow => "web_referrer_overflow_total"@,
            Counter::EventOverflow => "web_event_overflow_total"@,
            Counter::DimensionOverflow => "web_dimension_overflow_total"@,
            Counter::BlockedRequests => "web_blocked_requests_total"@,
        }
    }

    /// Exported metric name.
    pub fn name(self) -> (r: &'static str)
        ensures
            r@ == self.spec_name(),
    {
        match self {
            Counter::Pageviews => "web_pageviews_total",
            Counter::Events => "web_events_total",
            Counter::CustomEvents => "web_custom_events_total",
            Counter::Sessions => "web_sessions_total",
            Counter::EngagementSeconds => "web_engagement_seconds_total",
            Counter::ScrollDepth => "web_scroll_depth_total",
            Counter::CustomProperties => "web_custom_properties_total",
            Counter::SeriesOverflow => "web_series_overflow_total",
            Counter::PathOverflow => "web_path_overflow_total",
            Counter::ReferrerOverflow => "web_referrer_overflow_total",
            Counter::EventOverflow => "web_event_overflow_total",
            Counter::DimensionOverflow => "web_dimension_overflow_total",
            Counter::BlockedRequests => "web_blocked_requests_total",
        }
    }

    /// Exported help text.
    pub open spec fn spec_help(self) -> Seq<char> {
        match self {
            Counter::Pageviews => "Total number of pageviews"@,
            Counter::Events => "Total number of non-pageview events"@,
            Counter::CustomEvents => "Total number of custom events"@,
            Counter::Sessions => "Total number of reported sessions"@,
            Counter::EngagementSeconds => "Total active engagement time reported by clients"@,
            Counter::ScrollDepth => "Total scroll-depth reports bucketed by percentage"@,
            Counter::CustomProperties => "Bounded custom property observations by event"@,
            Counter::SeriesOverflow => "Metric observations collapsed due to the shared series budget"@,
            Counter::PathOverflow => "Paths collapsed to other due to cardinality limit"@,
            Counter::ReferrerOverflow => "Referrers rejected due to cardinality limit"@,
            Counter::EventOverflow => "Custom events rejected due to cardinality limit"@,
            Counter::DimensionOverflow => "Dimension values collapsed due to cardinality limit"@,
            Counter::BlockedRequests => "Embedded web asset requests blocked by security filters"@,
        }
    }

    /// Exported help text.
    pub fn help(self) -> (r: &'static str)
        ensures
            r@ == self.spec_help(),
    {
        match self {
            Counter::Pageviews => "Total number of pageviews",
            Counter::Events => "Total number of non-pageview events",
            Counter::CustomEvents => "Total number of custom events",
            Counter::Sessions => "Total number of reported sessions",
            Counter::EngagementSeconds => "Total active engagement time reported by clients",
            Counter::ScrollDepth => "Total scroll-depth reports bucketed by percentage",
            Counter::CustomProperties => "Bounded custom property observations by event",
            Counter::SeriesOverflow => "Metric observations collapsed due to the shared series budget",
            Counter::PathOverflow => "Paths collapsed to other due to cardinality limit",
            Counter::ReferrerOverflow => "Referrers rejected due to cardinality limit",
            Counter::EventOverflow => "Custom events rejected due to cardinality limit",
            Counter::DimensionOverflow => "Dimension values collapsed due to cardinality limit",
            Counter::BlockedRequests => "Embedded web asset requests blocked by security filters",
        }
    }
}

/// Label names of a counter under the collection flags.
pub open spec fn counter_labels(c: Counter, collect: CollectConfig) -> Seq<Seq<char>> {
    match c {
        Counter::Pageviews | Counter::Sessions | Counter::EngagementSeconds => label_names(collect),
        Counter::Events => seq!["event"@] + label_names(collect),
        Counter::CustomEvents => seq!["event"@],
        Counter::ScrollDepth => label_names(collect).push("depth"@),
        Counter::CustomProperties => seq!["event"@, "key"@, "value"@],
        Counter::DimensionOverflow => seq!["dimension"@],
        Counter::BlockedRequests => seq!["reason"@],
        _ => Seq::empty(),
    }
}

/// Label names of a counter under the collection flags.
pub fn counter_label_names(c: Counter, collect: &CollectConfig) -> (r: Vec<&'static str>)
    ensures
        str_views(r@) == counter_labels(c, *collect),
{
    let mut names: Vec<&'static str> = Vec::new();
    match c {
        Counter::Pageviews | Counter::Sessions | Counter::EngagementSeconds => {
            names = metric_label_names(collect);
        },
        Counter::Events => {
            push_name(&mut names, "event");
            let rest = metric_label_names(collect);
            let mut i: usize = 0;
            while i < rest.len()
                invariant
                    i <= rest.len(),
                    str_views(names@) == seq!["event"@] + str_views(rest@).take(i as int),
                decreases rest.len() - i,
            {
                push_name(&mut names, rest[i]);
                assert(str_views(rest@).take(i + 1) =~= str_views(rest@).take(i as int).push(
                    rest@[i as int]@,
                ));
                i += 1;
            }
            assert(str_views(rest@).take(rest.len() as int) =~= str_views(rest@));
        },
        Counter::CustomEvents => {
            push_name(&mut names, "event");
        },
        Counter::ScrollDepth => {
            names = metric_label_names(collect);
            push_name(&mut names, "depth");
        },
        Counter::CustomProperties => {
            push_name(&mut names, "event");
            push_name(&mut names, "key");
            push_name(&mut names, "value");
        },
        Counter::DimensionOverflow => {
            push_name(&mut names, "dimension");
        },
        Counter::BlockedRequests => {
            push_name(&mut names, "reason");
        },
        _ => {},
    }
    assert(str_views(names@) =~= counter_labels(c, *collect));
    names
}

/// All counters, in registration order.
pub open spec fn all_counters() -> Seq<Counter> {
    seq![
        Counter::Pageviews,
        Counter::Events,
        Counter::CustomEvents,
        Counter::Sessions,
        Counter::EngagementSeconds,
        Counter::ScrollDepth,
        Counter::CustomProperties,
        Counter::SeriesOverflow,
        Counter::PathOverflow,
        Counter::ReferrerOverflow,
        Counter::EventOverflow,
        Counter::DimensionOverflow,
        Counter::BlockedRequests,
    ]
}

/// All counters, in registration order.
pub fn counters() -> (r: Vec<Counter>)
    ensures
        r@ == all_counters(),
{
    let r = vec![
        Counter::Pageviews,
        Counter::Events,
        Counter::CustomEvents,
        Counter::Sessions,
        Counter::EngagementSeconds,
        Counter::ScrollDepth,
        Counter::CustomProperties,
        Counter::SeriesOverflow,
        Counter::PathOverflow,
        Counter::ReferrerOverflow,
        Counter::EventOverflow,
        Counter::DimensionOverflow,
        Counter::BlockedRequests,
    ];
    assert(r@ =~= all_counters());
    r
}

/// IEEE-754 binary64 bit pattern of 1.0.
pub const ONE_BITS: u64 = 0x3FF0_0000_0000_0000;

/// Whether a binary64 bit pattern is a positive finite number.
pub open spec fn positive_finite_bits(bits: u64) -> bool {
    0 < bits < 0x7FF0_0000_0000_0000
}

/// One increment of one counter series, by an amount given as the
/// IEEE-754 binary64 bit pattern.
pub struct Increment {
    pub counter: Counter,
    pub values: Vec<String>,
    pub amount_bits: u64,
}

pub open spec fn increment_view(i: Increment) -> (Counter, Seq<Seq<char>>, u64) {
    (i.counter, string_views(i.values@), i.amount_bits)
}

pub open spec fn increments_view(v: Seq<Increment>) -> Seq<(Counter, Seq<Seq<char>>, u64)> {
    v.map_values(|i: Increment| increment_view(i))
}

/// Whether the budget takes a label set: it was admitted before, or its
/// estimated bytes still fit.
pub open spec fn admits(
    admitted: Set<Seq<char>>,
    spent: nat,
    metric: Seq<char>,
    names: Seq<Seq<char>>,
    values: Seq<Seq<char>>,
) -> bool {
    admitted.contains(series_key(metric, values)) || spent + series_cost(metric, names, values)
        <= SERIES_BYTE_BUDGET
}

/// Admitted keys after offering a label set to the budget.
pub open spec fn admitted_after(
    admitted: Set<Seq<char>>,
    spent: nat,
    metric: Seq<char>,
    names: Seq<Seq<char>>,
    values: Seq<Seq<char>>,
) -> Set<Seq<char>> {
    if admits(admitted, spent, metric, names, values) {
        admitted.insert(series_key(metric, values))
    } else {
        admitted
    }
}

/// Spent bytes after offering a label set to the budget.
pub open spec fn spent_after(
    admitted: Set<Seq<char>>,
    spent: nat,
    metric: Seq<char>,
    names: Seq<Seq<char>>,
    values: Seq<Seq<char>>,
) -> nat {
    if admitted.contains(series_key(metric, values)) || !admits(
        admitted,
        spent,
        metric,
        names,
        values,
    ) {
        spent
    } else {
        (spent + series_cost(metric, names, values)) as nat
    }
}

/// The increments of one observation: the series itself, or, when the
/// budget refuses it, the overflow counter and the series with every value
/// `other`.
pub open spec fn observation(c: Counter, values: Seq<Seq<char>>, amount_bits: u64, admitted: bool) -> Seq<
    (Counter, Seq<Seq<char>>, u64),
> {
    if admitted {
        seq![(c, values, amount_bits)]
    } else {
        seq![
            (Counter::SeriesOverflow, Seq::<Seq<char>>::empty(), ONE_BITS),
            (c, others(values.len()), amount_bits),
        ]
    }
}

/// The increment of a counter without labels.
pub open spec fn tick(c: Counter) -> Seq<(Counter, Seq<Seq<char>>, u64)> {
    seq![(c, Seq::<Seq<char>>::empty(), ONE_BITS)]
}

fn push_increment(out: &mut Vec<Increment>, i: Increment)
    ensures
        increments_view(final(out)@) == increments_view(old(out)@).push(increment_view(i)),
{
    out.push(i);
    assert(increments_view(out@) =~= increments_view(old(out)@).push(increment_view(i)));
}

/// Bounded recording of observations into the exported counters.
///
/// The recorder decides which series an observation increments; the
/// counters themselves live with the exporter, which applies each
/// `Increment`.
pub struct Metrics {
    collect: CollectConfig,
    budget: SeriesBudget,
    uniques: Option<UniquesEstimator>,
}

impl Metrics {
    /// Collection flags selecting exported dimensions.
    pub closed spec fn collect(&self) -> CollectConfig {
        self.collect
    }

    /// Series keys admitted by the shared budget.
    pub closed spec fn admitted(&self) -> Set<Seq<char>> {
        self.budget.admitted()
    }

    /// Bytes charged to the shared budget.
    pub closed spec fn spent(&self) -> nat {
        self.budget.spent()
    }

    /// The unique visitor estimator, when unique tracking is enabled.
    pub closed spec fn estimator(&self) -> Option<UniquesEstimator> {
        self.uniques
    }

    /// The budget fields are unchanged from `other`.
    pub open spec fn same_budget(&self, other: &Self) -> bool {
        &&& self.collect() == other.collect()
        &&& self.admitted() == other.admitted()
        &&& self.spent() == other.spent()
    }

    /// Whether `self` is `before` after offering `values` for `c`.
    pub open spec fn offered(&self, before: &Self, c: Counter, values: Seq<Seq<char>>) -> bool {
        let names = counter_labels(c, before.collect());
        &&& self.collect() == before.collect()
        &&& self.estimator() == before.estimator()
        &&& self.admitted() == admitted_after(
            before.admitted(),
            before.spent(),
            c.spec_name(),
            names,
            values,
        )
        &&& self.spent() == spent_after(
            before.admitted(),
            before.spent(),
            c.spec_name(),
            names,
            values,
        )
    }

    /// Whether `before` admits `values` for `c`.
    pub open spec fn takes(&self, c: Counter, values: Seq<Seq<char>>) -> bool {
        admits(
            self.admitted(),
            self.spent(),
            c.spec_name(),
            counter_labels(c, self.collect()),
            values,
        )
    }

    /// Creates the recorder for the configured collection flags, with an
    /// empty series budget and, when a salt rotation is configured, a unique
    /// visitor estimator.
    pub fn new(config: &Config) -> (r: Self)
        ensures
            r.collect() == config.site.collect,
            r.admitted() == Set::<Seq<char>>::empty(),
            r.spent() == 0,
            config.site.salt_rotation is None ==> r.estimator() is None,
            config.site.salt_rotation matches Some(rotation) ==> r.estimator() matches Some(u) && u.rotation() == rotation && u.visitors() == Set::<u32>::empty(),
    {
        let uniques = match config.site.salt_rotation {
            Some(rotation) => Some(UniquesEstimator::new(rotation)),
            None => None,
        };
        Metrics { collect: config.site.collect, budget: SeriesBudget::new(), uniques }
    }

    /// Offers one observation to the shared budget and records its
    /// increments.
    fn observe(&mut self, c: Counter, values: Vec<String>, amount_bits: u64, out: &mut Vec<Increment>)
        ensures
            final(self).offered(old(self), c, string_views(values@)),
            string_views(values@).len() == counter_labels(c, old(self).collect()).len() && arity_ok(
                increments_view(old(out)@),
                old(self).collect(),
            ) ==> arity_ok(increments_view(final(out)@), old(self).collect()),
            increments_view(final(out)@) == increments_view(old(out)@) + observation(
                c,
                string_views(values@),
                amount_bits,
                old(self).takes(c, string_views(values@)),
            ),
    {
        let names = counter_label_names(c, &self.collect);
        let ghost vals = string_views(values@);
        let ghost before = self.admitted();
        proof {
            let key = series_key(c.spec_name(), vals);
            if before.contains(key) {
                assert(before.insert(key) =~= before);
            }
        }
        let (bounded, overflow) = self.budget.bounded_labels(c.name(), &names, values);
        let ghost start = increments_view(out@);
        if overflow {
            let empty: Vec<String> = Vec::new();
            assert(string_views(empty@) =~= Seq::<Seq<char>>::empty());
            push_increment(
                out,
                Increment { counter: Counter::SeriesOverflow, values: empty, amount_bits: ONE_BITS },
            );
        }
        push_increment(out, Increment { counter: c, values: bounded, amount_bits });
        assert(increments_view(out@) =~= start + observation(
            c,
            vals,
            amount_bits,
            old(self).takes(c, vals),
        ));
        proof {
            if vals.len() == counter_labels(c, self.collect()).len() {
                observation_arity(c, vals, amount_bits, old(self).takes(c, vals), self.collect());
                if arity_ok(start, self.collect()) {
                    lemma_arity_concat(
                        start,
                        observation(c, vals, amount_bits, old(self).takes(c, vals)),
                        self.collect(),
                    );
                }
            }
        }
    }

    fn tick(&self, c: Counter, out: &mut Vec<Increment>)
        requires
            c == Counter::SeriesOverflow || c == Counter::PathOverflow || c == Counter::ReferrerOverflow
                || c == Counter::EventOverflow,
        ensures
            increments_view(final(out)@) == increments_view(old(out)@) + tick(c),
            arity_ok(increments_view(old(out)@), self.collect()) ==> arity_ok(
                increments_view(final(out)@),
                self.collect(),
            ),
    {
        let ghost start = increments_view(out@);
        let empty: Vec<String> = Vec::new();
        assert(string_views(empty@) =~= Seq::<Seq<char>>::empty());
        push_increment(out, Increment { counter: c, values: empty, amount_bits: ONE_BITS });
        assert(increments_view(out@) =~= start + tick(c));
        proof {
            tick_arity(c, self.collect());
            if arity_ok(start, self.collect()) {
                lemma_arity_concat(start, tick(c), self.collect());
            }
        }
    }

    /// Increments the pageview counter with configured dimension labels.
    pub fn record_pageview(&mut self, labels: &DimensionLabels, out: &mut Vec<Increment>)
        ensures
            arity_ok(increments_view(old(out)@), old(self).collect()) ==> arity_ok(
                increments_view(final(out)@),
                old(self).collect(),
            ),
            ({
                let v = label_values_of(old(self).collect(), *labels);
                &&& final(self).offered(old(self), Counter::Pageviews, v)
                &&& increments_view(final(out)@) == increments_view(old(out)@) + observation(
                    Counter::Pageviews,
                    v,
                    ONE_BITS,
                    old(self).takes(Counter::Pageviews, v),
                )
            }),
    {
        proof {
            dimension_values_arity(self.collect, *labels);
        }
        let values = label_values(&self.collect, labels);
        self.observe(Counter::Pageviews, values, ONE_BITS, out);
    }

    /// Increments the non-pageview event counter with configured labels.
    pub fn record_event(&mut self, event_name: &str, labels: &DimensionLabels, out: &mut Vec<Increment>)
        ensures
            arity_ok(increments_view(old(out)@), old(self).collect()) ==> arity_ok(
                increments_view(final(out)@),
                old(self).collect(),
            ),
            ({
                let v = seq![sanitized(event_name@)] + label_values_of(old(self).collect(), *labels);
                &&& final(self).offered(old(self), Counter::Events, v)
                &&& increments_view(final(out)@) == increments_view(old(out)@) + observation(
                    Counter::Events,
                    v,
                    ONE_BITS,
                    old(self).takes(Counter::Events, v),
                )
            }),
    {
        proof {
            dimension_values_arity(self.collect, *labels);
        }
        let rest = label_values(&self.collect, labels);
        let mut values: Vec<String> = Vec::new();
        push_value(&mut values, sanitize_label(event_name));
        let mut i: usize = 0;
        while i < rest.len()
            invariant
                i <= rest.len(),
                string_views(values@) == seq![sanitized(event_name@)] + string_views(rest@).take(
                    i as int,
                ),
            decreases rest.len() - i,
        {
            let v = string_of(&chars_of(rest[i].as_str()));
            push_value(&mut values, v);
            assert(string_views(rest@).take(i + 1) =~= string_views(rest@).take(i as int).push(
                rest@[i as int]@,
            ));
            i += 1;
        }
        assert(string_views(rest@).take(rest.len() as int) =~= string_views(rest@));
        self.observe(Counter::Events, values, ONE_BITS, out);
    }

    /// Increments the aggregate custom-event counter by event name.
    pub fn record_custom_event(&mut self, event_name: &str, out: &mut Vec<Increment>)
        ensures
            arity_ok(increments_view(old(out)@), old(self).collect()) ==> arity_ok(
                increments_view(final(out)@),
                old(self).collect(),
            ),
            ({
                let v = seq![sanitized(event_name@)];
                &&& final(self).offered(old(self), Counter::CustomEvents, v)
                &&& increments_view(final(out)@) == increments_view(old(out)@) + observation(
                    Counter::CustomEvents,
                    v,
                    ONE_BITS,
                    old(self).takes(Counter::CustomEvents, v),
                )
            }),
    {
        let mut values: Vec<String> = Vec::new();
        push_value(&mut values, sanitize_label(event_name));
        assert(string_views(values@) =~= seq![sanitized(event_name@)]);
        self.observe(Counter::CustomEvents, values, ONE_BITS, out);
    }

    /// Increments the reported session-start counter.
    pub fn record_session(&mut self, labels: &DimensionLabels, out: &mut Vec<Increment>)
        ensures
            arity_ok(increments_view(old(out)@), old(self).collect()) ==> arity_ok(
                increments_view(final(out)@),
                old(self).collect(),
            ),
            ({
                let v = label_values_of(old(self).collect(), *labels);
                &&& final(self).offered(old(self), Counter::Sessions, v)
                &&& increments_view(final(out)@) == increments_view(old(out)@) + observation(
                    Counter::Sessions,
                    v,
                    ONE_BITS,
                    old(self).takes(Counter::Sessions, v),
                )
            }),
    {
        proof {
            dimension_values_arity(self.collect, *labels);
        }
        let values = label_values(&self.collect, labels);
        self.observe(Counter::Sessions, values, ONE_BITS, out);
    }

    /// Adds positive finite engagement seconds (a binary64 bit pattern) to
    /// the engagement counter; other amounts record nothing.
    pub fn record_engagement_seconds(&mut self, labels: &DimensionLabels, seconds_bits: u64, out: &mut Vec<Increment>)
        ensures
            arity_ok(increments_view(old(out)@), old(self).collect()) ==> arity_ok(
                increments_view(final(out)@),
                old(self).collect(),
            ),
            !positive_finite_bits(seconds_bits) ==> *final(self) == *old(self) && final(out)@
                == old(out)@,
            positive_finite_bits(seconds_bits) ==> ({
                let v = label_values_of(old(self).collect(), *labels);
                &&& final(self).offered(old(self), Counter::EngagementSeconds, v)
                &&& increments_view(final(out)@) == increments_view(old(out)@) + observation(
                    Counter::EngagementSeconds,
                    v,
                    seconds_bits,
                    old(self).takes(Counter::EngagementSeconds, v),
                )
            }),
    {
        proof {
            dimension_values_arity(self.collect, *labels);
        }
        if seconds_bits == 0 || seconds_bits >= 0x7FF0_0000_0000_0000 {
            return ;
        }
        let values = label_values(&self.collect, labels);
        self.observe(Counter::EngagementSeconds, values, seconds_bits, out);
    }

    /// Increments the bucketed scroll-depth counter.
    pub fn record_scroll_depth(&mut self, labels: &DimensionLabels, depth: u8, out: &mut Vec<Increment>)
        ensures
            arity_ok(increments_view(old(out)@), old(self).collect()) ==> arity_ok(
                increments_view(final(out)@),
                old(self).collect(),
            ),
            ({
                let v = label_values_of(old(self).collect(), *labels).push(scroll_bucket(depth));
                &&& final(self).offered(old(self), Counter::ScrollDepth, v)
                &&& increments_view(final(out)@) == increments_view(old(out)@) + observation(
                    Counter::ScrollDepth,
                    v,
                    ONE_BITS,
                    old(self).takes(Counter::ScrollDepth, v),
                )
            }),
    {
        proof {
            dimension_values_arity(self.collect, *labels);
        }
        let mut values = label_values(&self.collect, labels);
        let bucket = scroll_depth_bucket(depth);
        push_value(&mut values, string_of(&chars_of(bucket)));
        self.observe(Counter::ScrollDepth, values, ONE_BITS, out);
    }

    /// Increments the custom-property observation counter.
    pub fn record_custom_property(&mut self, event_name: &str, key: &str, value: &str, out: &mut Vec<Increment>)
        ensures
            arity_ok(increments_view(old(out)@), old(self).collect()) ==> arity_ok(
                increments_view(final(out)@),
                old(self).collect(),
            ),
            ({
                let v = seq![sanitized(event_name@), sanitized(key@), sanitized(value@)];
                &&& final(self).offered(old(self), Counter::CustomProperties, v)
                &&& increments_view(final(out)@) == increments_view(old(out)@) + observation(
                    Counter::CustomProperties,
                    v,
                    ONE_BITS,
                    old(self).takes(Counter::CustomProperties, v),
                )
            }),
    {
        let mut values: Vec<String> = Vec::new();
        push_value(&mut values, sanitize_label(event_name));
        push_value(&mut values, sanitize_label(key));
        push_value(&mut values, sanitize_label(value));
        assert(string_views(values@) =~= seq![sanitized(event_name@), sanitized(key@), sanitized(value@)]);
        self.observe(Counter::CustomProperties, values, ONE_BITS, out);
    }

    /// Records that a path was collapsed because the path registry was full.
    pub fn record_path_overflow(&self, out: &mut Vec<Increment>)
        ensures
            arity_ok(increments_view(old(out)@), self.collect()) ==> arity_ok(
                increments_view(final(out)@),
                self.collect(),
            ),
            increments_view(final(out)@) == increments_view(old(out)@) + tick(Counter::PathOverflow),
    {
        self.tick(Counter::PathOverflow, out);
    }

    /// Records that a referrer was collapsed because the referrer registry
    /// was full.
    pub fn record_referrer_overflow(&self, out: &mut Vec<Increment>)
        ensures
            arity_ok(increments_view(old(out)@), self.collect()) ==> arity_ok(
                increments_view(final(out)@),
                self.collect(),
            ),
            increments_view(final(out)@) == increments_view(old(out)@) + tick(Counter::ReferrerOverflow),
    {
        self.tick(Counter::ReferrerOverflow, out);
    }

    /// Records that a custom event was collapsed because the event registry
    /// was full.
    pub fn record_event_overflow(&self, out: &mut Vec<Increment>)
        ensures
            arity_ok(increments_view(old(out)@), self.collect()) ==> arity_ok(
                increments_view(final(out)@),
                self.collect(),
            ),
            increments_view(final(out)@) == increments_view(old(out)@) + tick(Counter::EventOverflow),
    {
        self.tick(Counter::EventOverflow, out);
    }

    /// Records that a named dimension value was collapsed because its
    /// registry was full.
    pub fn record_dimension_overflow(&mut self, dimension: &str, out: &mut Vec<Increment>)
        ensures
            arity_ok(increments_view(old(out)@), old(self).collect()) ==> arity_ok(
                increments_view(final(out)@),
                old(self).collect(),
            ),
            ({
                let v = seq![sanitized(dimension@)];
                &&& final(self).offered(old(self), Counter::DimensionOverflow, v)
                &&& increments_view(final(out)@) == increments_view(old(out)@) + observation(
                    Counter::DimensionOverflow,
                    v,
                    ONE_BITS,
                    old(self).takes(Counter::DimensionOverflow, v),
                )
            }),
    {
        let mut values: Vec<String> = Vec::new();
        push_value(&mut values, sanitize_label(dimension));
        assert(string_views(values@) =~= seq![sanitized(dimension@)]);
        self.observe(Counter::DimensionOverflow, values, ONE_BITS, out);
    }

    /// Records a blocked embedded-asset request by reason.
    pub fn record_blocked_request(&mut self, reason: &str, out: &mut Vec<Increment>)
        ensures
            arity_ok(increments_view(old(out)@), old(self).collect()) ==> arity_ok(
                increments_view(final(out)@),
                old(self).collect(),
            ),
            ({
                let v = seq![sanitized(reason@)];
                &&& final(self).offered(old(self), Counter::BlockedRequests, v)
                &&& increments_view(final(out)@) == increments_view(old(out)@) + observation(
                    Counter::BlockedRequests,
                    v,
                    ONE_BITS,
                    old(self).takes(Counter::BlockedRequests, v),
                )
            }),
    {
        let mut values: Vec<String> = Vec::new();
        push_value(&mut values, sanitize_label(reason));
        assert(string_views(values@) =~= seq![sanitized(reason@)]);
        self.observe(Counter::BlockedRequests, values, ONE_BITS, out);
    }

    /// Adds a visitor observation to the unique visitor estimator, if
    /// enabled.
    pub fn add_unique(&mut self, ip: &str, user_agent: &str)
        ensures
            final(self).same_budget(old(self)),
            old(self).estimator() is None ==> final(self).estimator() is None,
            old(self).estimator() matches Some(u) ==> final(self).estimator() matches Some(w) && w.rotation() == u.rotation() && ({
                let rotated = if w.key() == u.key() {
                    u.visitors()
                } else {
                    Set::<u32>::empty()
                };
                let e = visitor_element(ip@, user_agent@, w.salt());
                &&& inserted_into(rotated, e, w.visitors())
                &&& w.key() == u.key() ==> w.salt() == u.salt()
                &&& w.key() == u.key() && u.visitors().finite() && u.visitors().len() <= 128
                    && u.visitors().contains(e) ==> w == u
            }),
    {
        match self.uniques.take() {
            Some(mut u) => {
                u.add(ip, user_agent);
                self.uniques = Some(u);
            },
            None => {},
        }
    }

    /// Rotates the estimator to the current period and returns the estimate
    /// the unique visitor gauge is to be set to, if unique tracking is
    /// enabled.
    pub fn update_unique_gauge(&mut self) -> (r: Option<usize>)
        ensures
            final(self).same_budget(old(self)),
            old(self).estimator() is None ==> r is None && final(self).estimator() is None,
            old(self).estimator() matches Some(u) ==> final(self).estimator() matches Some(w) && r
                == Some(sketch_estimate(w.sketch()) as usize) && w.rotation() == u.rotation() && (
            w.key() == u.key() ==> w == u),
    {
        match self.uniques.take() {
            Some(mut u) => {
                let e = u.estimate();
                self.uniques = Some(u);
                Some(e)
            },
            None => None,
        }
    }

    /// The unique visitor estimator, if unique tracking is enabled.
    pub fn uniques(&self) -> (r: Option<&UniquesEstimator>)
        ensures
            r matches Some(u) ==> self.estimator() == Some(*u),
            r is None ==> self.estimator() is None,
    {
        match &self.uniques {
            Some(u) => Some(u),
            None => None,
        }
    }

    /// Replaces the estimator state with a persisted one, if unique tracking
    /// is enabled.
    pub fn restore_uniques(&mut self, salt_key: String, salt: String, hll: Sketch<14, 6>)
        ensures
            final(self).same_budget(old(self)),
            old(self).estimator() is None ==> final(self).estimator() is None,
            old(self).estimator() matches Some(u) ==> final(self).estimator() matches Some(w)
                && w.rotation() == u.rotation() && (w.key() == salt_key@ ==> w.salt() == salt@
                && w.sketch() == hll),
    {
        match self.uniques.take() {
            Some(mut u) => {
                u.restore(salt_key, salt, hll);
                self.uniques = Some(u);
            },
            None => {},
        }
    }

    /// Rotates the estimator to the current period, if unique tracking is
    /// enabled.
    pub fn rotate_uniques(&mut self)
        ensures
            final(self).same_budget(old(self)),
            old(self).estimator() is None ==> final(self).estimator() is None,
            old(self).estimator() matches Some(u) ==> final(self).estimator() matches Some(w) && {
                &&& w.rotation() == u.rotation()
                &&& exists|second: i64|
                    #![trigger utc_date_of(second)]
                    utc_date_of(second) is Some && w.key() == key_text(utc_date_of(second)->0, u.rotation())
                &&& w.key() == u.key() ==> w == u
                &&& w.key() != u.key() ==> {
                    &&& UniquesEstimator::salt_of(w.key(), w.salt())
                    &&& w.visitors() == Set::<u32>::empty()
                }
            },
    {
        match self.uniques.take() {
            Some(mut u) => {
                u.rotate_if_expired();
                self.uniques = Some(u);
            },
            None => {},
        }
    }
}


/// Offering `values` for counter `c` to a budget: the admitted keys, the
/// spent bytes and the increments recorded.
pub open spec fn observe_step(
    admitted: Set<Seq<char>>,
    spent: nat,
    collect: CollectConfig,
    c: Counter,
    values: Seq<Seq<char>>,
) -> (Set<Seq<char>>, nat, Seq<(Counter, Seq<Seq<char>>, u64)>) {
    let names = counter_labels(c, collect);
    (
        admitted_after(admitted, spent, c.spec_name(), names, values),
        spent_after(admitted, spent, c.spec_name(), names, values),
        observation(c, values, ONE_BITS, admits(admitted, spent, c.spec_name(), names, values)),
    )
}


/// Every increment carries one value per label name of its counter.
pub open spec fn arity_ok(incs: Seq<(Counter, Seq<Seq<char>>, u64)>, collect: CollectConfig) -> bool {
    forall|i: int|
        0 <= i < incs.len() ==> (#[trigger] incs[i]).1.len() == counter_labels(incs[i].0, collect).len()
}

/// An observation whose values match its counter's label names increments
/// only series with matching label values, the overflow counter included.
pub proof fn observation_arity(c: Counter, values: Seq<Seq<char>>, amount_bits: u64, admitted: bool, collect: CollectConfig)
    requires
        values.len() == counter_labels(c, collect).len(),
    ensures
        arity_ok(observation(c, values, amount_bits, admitted), collect),
{
}

/// Counters without labels are ticked with no values.
pub proof fn tick_arity(c: Counter, collect: CollectConfig)
    requires
        c == Counter::SeriesOverflow || c == Counter::PathOverflow || c == Counter::ReferrerOverflow
            || c == Counter::EventOverflow,
    ensures
        arity_ok(tick(c), collect),
{
}

pub proof fn lemma_arity_concat(
    a: Seq<(Counter, Seq<Seq<char>>, u64)>,
    b: Seq<(Counter, Seq<Seq<char>>, u64)>,
    collect: CollectConfig,
)
    requires
        arity_ok(a, collect),
        arity_ok(b, collect),
    ensures
        arity_ok(a + b, collect),
{
    assert forall|i: int| 0 <= i < (a + b).len() implies (#[trigger] (a + b)[i]).1.len()
        == counter_labels((a + b)[i].0, collect).len() by {
        if i < a.len() {
            assert((a + b)[i] == a[i]);
        } else {
            assert((a + b)[i] == b[i - a.len()]);
        }
    }
}

/// The dimension label values of every pageview-like counter match its
/// label names.
pub proof fn dimension_values_arity(collect: CollectConfig, labels: DimensionLabels)
    ensures
        label_values_of(collect, labels).len() == counter_labels(Counter::Pageviews, collect).len(),
        label_values_of(collect, labels).len() == counter_labels(Counter::Sessions, collect).len(),
        label_values_of(collect, labels).len() == counter_labels(Counter::EngagementSeconds, collect).len(),
        label_values_of(collect, labels).len() + 1 == counter_labels(Counter::Events, collect).len(),
        label_values_of(collect, labels).len() + 1 == counter_labels(Counter::ScrollDepth, collect).len(),
{
    label_values_match_label_names(collect, labels);
    let n = label_names(collect);
    assert(counter_labels(Counter::Pageviews, collect) == n);
    assert(counter_labels(Counter::Sessions, collect) == n);
    assert(counter_labels(Counter::EngagementSeconds, collect) == n);
    assert((seq!["event"@] + n).len() == n.len() + 1);
    assert(n.push("depth"@).len() == n.len() + 1);
}

} // verus!
