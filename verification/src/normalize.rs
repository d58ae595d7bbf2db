//! Path and referrer normalization into bounded, low-cardinality labels.
use vstd::prelude::*;

use crate::config::PathConfig;
use crate::limits::MAX_PATH_LEN;
use crate::net::{internal_ipv4, internal_ipv6, is_internal_ipv4, is_internal_ipv6};
use crate::text::{
    ascii_lower_seq, chars_of, ends_with, eq_str, lower_chars, owned, trim_end_char,
    trim_end_char_chars, first_index, has_char, is_ascii_digit, is_first_index, join,
    lemma_first_index_unique, push_char, slice_chars, split, split_once, split_once_chars,
    string_of, utf8_len, utf8_len_of,
};

verus! {

/// Normalizes request paths into bounded, low-cardinality metric labels.
#[derive(Clone, Copy, Debug)]
pub struct PathNormalizer {
    /// Active path normalization rules.
    pub config: PathConfig,
}

/// The views of a list of character vectors.
pub open spec fn views(v: Seq<Vec<char>>) -> Seq<Seq<char>> {
    v.map_values(|x: Vec<char>| x@)
}

/// One step of dot-segment resolution: empty and `.` pieces vanish, `..`
/// drops the previous segment (if any), anything else is appended.
pub open spec fn resolve_step(acc: Seq<Seq<char>>, piece: Seq<char>) -> Seq<Seq<char>> {
    if piece.len() == 0 || piece == seq!['.'] {
        acc
    } else if piece == seq!['.', '.'] {
        if acc.len() > 0 {
            acc.drop_last()
        } else {
            acc
        }
    } else {
        acc.push(piece)
    }
}

/// Dot-segment resolution of the pieces of a path, left to right.
pub open spec fn resolve_segments(pieces: Seq<Seq<char>>) -> Seq<Seq<char>>
    decreases pieces.len(),
{
    if pieces.len() == 0 {
        Seq::empty()
    } else {
        resolve_step(resolve_segments(pieces.drop_last()), pieces.last())
    }
}

pub open spec fn all_digits(s: Seq<char>) -> bool {
    forall|i: int| 0 <= i < s.len() ==> is_ascii_digit(#[trigger] s[i])
}

pub open spec fn id_placeholder() -> Seq<char> {
    seq![':', 'i', 'd']
}

pub open spec fn collapse_segment(seg: Seq<char>) -> Seq<char> {
    if all_digits(seg) {
        id_placeholder()
    } else {
        seg
    }
}

/// The segments kept from `path` after resolution, numeric collapsing and
/// truncation.
pub open spec fn normalized_segments(config: PathConfig, path: Seq<char>) -> Seq<Seq<char>> {
    let segs = resolve_segments(split(path, '/'));
    let collapsed = if config.collapse_numeric_segments {
        segs.map_values(|s: Seq<char>| collapse_segment(s))
    } else {
        segs
    };
    if config.max_segments > 0 && collapsed.len() > config.max_segments {
        collapsed.take(config.max_segments as int)
    } else {
        collapsed
    }
}

/// The label that `PathNormalizer::normalize` produces for `input`.
pub open spec fn normalize_path(config: PathConfig, input: Seq<char>) -> Seq<char> {
    if input.len() == 0 || utf8_len(input) > MAX_PATH_LEN {
        seq!['/']
    } else {
        let path_query = split_once(input, '#').0;
        let fragment = split_once(input, '#').1;
        let path = split_once(path_query, '?').0;
        let query = split_once(path_query, '?').1;
        let had_trailing_slash = ends_with(path, seq!['/']) && path != seq!['/'];
        let segs = normalized_segments(config, path);
        let base = seq!['/'] + join(segs, seq!['/']);
        let with_slash = if !config.normalize_trailing_slash && had_trailing_slash && segs.len()
            > 0 {
            base.push('/')
        } else {
            base
        };
        let with_query = if !config.strip_query && query is Some {
            with_slash.push('?') + query->0
        } else {
            with_slash
        };
        if !config.strip_fragment && fragment is Some {
            with_query.push('#') + fragment->0
        } else {
            with_query
        }
    }
}

/// `split(c)` on a character vector.
pub fn split_chars(v: &Vec<char>, c: char) -> (r: Vec<Vec<char>>)
    ensures
        views(r@) == split(v@, c),
{
    let mut pieces: Vec<Vec<char>> = Vec::new();
    let mut start: usize = 0;
    let mut i: usize = 0;
    assert(v@.skip(0) =~= v@);
    while i < v.len()
        invariant
            start <= i <= v.len(),
            forall|j: int| start <= j < i ==> v@[j] != c,
            views(pieces@) + split(v@.skip(start as int), c) == split(v@, c),
        decreases v.len() - i,
    {
        if v[i] == c {
            let ghost rest = v@.skip(start as int);
            proof {
                assert(is_first_index(rest, c, i - start));
                lemma_first_index_unique(rest, c, i - start);
                assert(rest.take(i - start) =~= v@.subrange(start as int, i as int));
                assert(rest.skip(i - start + 1) =~= v@.skip(i + 1));
            }
            let piece = slice_chars(v, start, i);
            let ghost before = pieces@;
            pieces.push(piece);
            assert(views(pieces@) =~= views(before).push(piece@));
            assert(views(before) + split(rest, c) =~= views(pieces@) + split(
                v@.skip(i + 1),
                c,
            ));
            start = i + 1;
        }
        i += 1;
    }
    let ghost rest = v@.skip(start as int);
    assert(!has_char(rest, c)) by {
        if has_char(rest, c) {
            let k = choose|k: int| is_first_index(rest, c, k);
            assert(v@[start + k] == c);
        }
    }
    let piece = slice_chars(v, start, v.len());
    let ghost before = pieces@;
    pieces.push(piece);
    assert(rest =~= v@.subrange(start as int, v@.len() as int));
    assert(views(pieces@) =~= views(before) + seq![rest]);
    pieces
}

fn is_all_digits(v: &Vec<char>) -> (r: bool)
    ensures
        r == all_digits(v@),
{
    let mut i: usize = 0;
    while i < v.len()
        invariant
            i <= v.len(),
            forall|j: int| 0 <= j < i ==> is_ascii_digit(#[trigger] v@[j]),
        decreases v.len() - i,
    {
        if !('0' <= v[i] && v[i] <= '9') {
            return false;
        }
        i += 1;
    }
    true
}

/// Dot-segment resolution of the pieces of a path.
fn resolve_pieces(pieces: &Vec<Vec<char>>) -> (r: Vec<Vec<char>>)
    ensures
        views(r@) == resolve_segments(views(pieces@)),
{
    let mut segs: Vec<Vec<char>> = Vec::new();
    let mut k: usize = 0;
    while k < pieces.len()
        invariant
            k <= pieces.len(),
            views(segs@) == resolve_segments(views(pieces@).take(k as int)),
        decreases pieces.len() - k,
    {
        let piece = &pieces[k];
        let ghost before = segs@;
        assert(views(pieces@).take(k + 1).drop_last() =~= views(pieces@).take(k as int));
        assert(views(pieces@).take(k + 1).last() == piece@);
        if piece.len() == 0 || (piece.len() == 1 && piece[0] == '.') {
            assert(piece.len() == 1 ==> piece@ =~= seq!['.']);
        } else if piece.len() == 2 && piece[0] == '.' && piece[1] == '.' {
            assert(piece@ =~= seq!['.', '.']);
            if segs.len() > 0 {
                segs.pop();
                assert(views(segs@) =~= views(before).drop_last());
            }
        } else {
            assert(piece@ != seq!['.']) by {
                if piece@ == seq!['.'] {
                    assert(piece@.len() == 1);
                }
            }
            assert(piece@ != seq!['.', '.']) by {
                if piece@ == seq!['.', '.'] {
                    assert(piece@.len() == 2);
                    assert(piece@[0] == '.' && piece@[1] == '.');
                }
            }
            let copy = slice_chars(piece, 0, piece.len());
            assert(copy@ =~= piece@);
            segs.push(copy);
            assert(views(segs@) =~= views(before).push(piece@));
        }
        k += 1;
    }
    assert(views(pieces@).take(pieces.len() as int) =~= views(pieces@));
    segs
}

fn collapse_numeric(segs: Vec<Vec<char>>) -> (r: Vec<Vec<char>>)
    ensures
        views(r@) == views(segs@).map_values(|s: Seq<char>| collapse_segment(s)),
{
    let mut out: Vec<Vec<char>> = Vec::new();
    let mut k: usize = 0;
    while k < segs.len()
        invariant
            k <= segs.len(),
            views(out@) == views(segs@).take(k as int).map_values(
                |s: Seq<char>| collapse_segment(s),
            ),
        decreases segs.len() - k,
    {
        let seg = &segs[k];
        let ghost before = out@;
        assert(views(segs@).take(k + 1) =~= views(segs@).take(k as int).push(seg@));
        if is_all_digits(seg) {
            let mut id: Vec<char> = Vec::new();
            id.push(':');
            id.push('i');
            id.push('d');
            assert(id@ =~= id_placeholder());
            out.push(id);
            assert(views(out@) =~= views(before).push(collapse_segment(seg@)));
        } else {
            let copy = slice_chars(seg, 0, seg.len());
            assert(copy@ =~= seg@);
            out.push(copy);
            assert(views(out@) =~= views(before).push(collapse_segment(seg@)));
        }
        assert(views(out@) =~= views(segs@).take(k + 1).map_values(
            |s: Seq<char>| collapse_segment(s),
        ));
        k += 1;
    }
    assert(views(segs@).take(segs.len() as int) =~= views(segs@));
    out
}

/// `'/'` followed by the segments joined with `'/'`.
fn join_with_root(segs: &Vec<Vec<char>>) -> (r: Vec<char>)
    ensures
        r@ == seq!['/'] + join(views(segs@), seq!['/']),
{
    let mut out: Vec<char> = Vec::new();
    out.push('/');
    let mut k: usize = 0;
    while k < segs.len()
        invariant
            k <= segs.len(),
            out@ == seq!['/'] + join(views(segs@).take(k as int), seq!['/']),
        decreases segs.len() - k,
    {
        let seg = &segs[k];
        let ghost before = out@;
        let ghost prefix = views(segs@).take(k as int);
        if k > 0 {
            out.push('/');
        }
        let mut j: usize = 0;
        while j < seg.len()
            invariant
                j <= seg.len(),
                k > 0 ==> out@ == before.push('/') + seg@.take(j as int),
                k == 0 ==> out@ == before + seg@.take(j as int),
            decreases seg.len() - j,
        {
            out.push(seg[j]);
            assert(seg@.take(j + 1) =~= seg@.take(j as int).push(seg@[j as int]));
            j += 1;
        }
        assert(seg@.take(seg.len() as int) =~= seg@);
        let ghost next = views(segs@).take(k + 1);
        assert(next.drop_last() =~= prefix);
        assert(next.last() == seg@);
        if k == 0 {
            assert(next =~= seq![seg@]);
            assert(prefix =~= Seq::<Seq<char>>::empty());
            assert(out@ =~= seq!['/'] + join(next, seq!['/']));
        } else {
            assert(out@ =~= seq!['/'] + join(next, seq!['/']));
        }
        k += 1;
    }
    assert(views(segs@).take(segs.len() as int) =~= views(segs@));
    out
}

fn append_chars(out: &mut Vec<char>, t: &Vec<char>)
    ensures
        final(out)@ == old(out)@ + t@,
{
    let mut j: usize = 0;
    while j < t.len()
        invariant
            j <= t.len(),
            out@ == old(out)@ + t@.take(j as int),
        decreases t.len() - j,
    {
        out.push(t[j]);
        assert(t@.take(j + 1) =~= t@.take(j as int).push(t@[j as int]));
        j += 1;
    }
    assert(t@.take(t.len() as int) =~= t@);
}

impl PathNormalizer {
    /// Creates a path normalizer using the configured normalization rules.
    pub fn new(config: PathConfig) -> (r: Self)
        ensures
            r.config == config,
    {
        PathNormalizer { config }
    }

    /// Normalizes an input path into a stable label value.
    pub fn normalize(&self, input: &str) -> (r: String)
        ensures
            r@ == normalize_path(self.config, input@),
    {
        let v = chars_of(input);
        if v.len() == 0 || utf8_len_of(&v) > MAX_PATH_LEN {
            let mut root = String::new();
            push_char(&mut root, '/');
            return root;
        }
        let (path_query, fragment) = split_once_chars(&v, '#');
        let (path, query) = split_once_chars(&path_query, '?');
        let had_trailing_slash = path.len() > 0 && path[path.len() - 1] == '/' && !(path.len()
            == 1);
        proof {
            if path@.len() > 0 {
                let last = path@.subrange(path@.len() - 1, path@.len() as int);
                assert(last =~= seq![path@[path@.len() - 1]]);
                if last == seq!['/'] {
                    assert(last[0] == '/');
                }
            }
            if path@.len() == 1 && path@[0] == '/' {
                assert(path@ =~= seq!['/']);
            }
            if path@ == seq!['/'] {
                assert(path@.len() == 1);
            }
        }
        let ghost spec_path = split_once(split_once(input@, '#').0, '?').0;
        assert(path@ == spec_path);
        assert(had_trailing_slash == (ends_with(path@, seq!['/']) && path@ != seq!['/']));
        let pieces = split_chars(&path, '/');
        let resolved = resolve_pieces(&pieces);
        let collapsed = if self.config.collapse_numeric_segments {
            collapse_numeric(resolved)
        } else {
            resolved
        };
        let mut segs = collapsed;
        if self.config.max_segments > 0 && segs.len() > self.config.max_segments {
            let ghost before = segs@;
            segs.truncate(self.config.max_segments);
            assert(views(segs@) =~= views(before).take(self.config.max_segments as int));
        }
        assert(views(segs@) == normalized_segments(self.config, path@));
        let mut out = join_with_root(&segs);
        if !self.config.normalize_trailing_slash && had_trailing_slash && segs.len() > 0 {
            out.push('/');
        }
        let ghost with_slash = out@;
        if !self.config.strip_query {
            if let Some(q) = &query {
                out.push('?');
                append_chars(&mut out, q);
            }
        }
        let ghost with_query = out@;
        assert(with_query == (if !self.config.strip_query && split_once(path_query@, '?').1 is Some {
            with_slash.push('?') + split_once(path_query@, '?').1->0
        } else {
            with_slash
        }));
        if !self.config.strip_fragment {
            if let Some(f) = &fragment {
                out.push('#');
                append_chars(&mut out, f);
            }
        }
        string_of(&out)
    }
}


/// How the host of a parsed URL is written.
#[derive(Clone, Copy, Debug, PartialEq, Eq, Structural)]
pub enum HostKind {
    Domain,
    Ipv4(u32),
    Ipv6(u128),
}

/// What `url::Url::parse` gives for a string's host: the host as text
/// (`host_str`) and its kind (`host`), `None` when the string does not parse
/// as a URL or the URL has no host.
pub uninterp spec fn url_host_info(s: Seq<char>) -> Option<(Seq<char>, HostKind)>;

/// Parses a URL with the `url` crate and returns its host text and kind.
#[verifier::external_body]
pub(crate) fn url_host(s: &str) -> (r: Option<(String, HostKind)>)
    ensures
        match r {
            Some((name, kind)) => url_host_info(s@) == Some((name@, kind)),
            None => url_host_info(s@) is None,
        },
{
    let url = url::Url::parse(s).ok()?;
    let name = url.host_str()?.to_owned();
    let kind = match url.host()? {
        url::Host::Domain(_) => HostKind::Domain,
        url::Host::Ipv4(a) => HostKind::Ipv4(u32::from(a)),
        url::Host::Ipv6(a) => HostKind::Ipv6(u128::from(a)),
    };
    Some((name, kind))
}

/// Whether `addr::parse_domain_name` accepts a host name.
pub uninterp spec fn addr_accepts_domain(host: Seq<char>) -> bool;

/// Checks a host name with `addr::parse_domain_name`.
#[verifier::external_body]
pub(crate) fn addr_domain_ok(host: &str) -> (r: bool)
    ensures
        r == addr_accepts_domain(host@),
{
    addr::parse_domain_name(host).is_ok()
}

/// The registrable domain that `psl2::lookup` finds for a host name.
pub uninterp spec fn psl_registrable_domain(host: Seq<char>) -> Option<Seq<char>>;

/// Looks a host name up in the Public Suffix List with `psl2::lookup` and
/// returns its registrable domain.
#[verifier::external_body]
pub(crate) fn psl_registrable(host: &str) -> (r: Option<String>)
    ensures
        match r {
            Some(d) => psl_registrable_domain(host@) == Some(d@),
            None => psl_registrable_domain(host@) is None,
        },
{
    psl2::lookup(host).and_then(|domain| domain.registrable_domain()).map(str::to_owned)
}

/// What the `url` crate serializes a URL to once its user name, password and
/// fragment are cleared; `None` when the string does not parse or the
/// credentials cannot be cleared.
pub uninterp spec fn url_without_credentials(s: Seq<char>) -> Option<Seq<char>>;

/// Parses a URL with the `url` crate, clears its user name, password and
/// fragment (`set_username("")`, `set_password(None)`, `set_fragment(None)`)
/// and serializes it.
#[verifier::external_body]
pub(crate) fn sanitized_url(s: &str) -> (r: Option<String>)
    ensures
        match r {
            Some(u) => url_without_credentials(s@) == Some(u@),
            None => url_without_credentials(s@) is None,
        },
{
    let mut url = url::Url::parse(s).ok()?;
    url.set_username("").ok()?;
    url.set_password(None).ok()?;
    url.set_fragment(None);
    Some(url.to_string())
}

/// Classifies a referrer host as direct, internal, or external.
#[derive(Clone, Copy, Debug, PartialEq, Eq, Structural)]
pub enum ReferrerHostClassification {
    /// Missing referrer or the site itself, treated as direct traffic.
    Direct,
    /// Loopback, private, or link-local host.
    Internal,
    /// Any other routable host.
    External,
}

impl ReferrerHostClassification {
    pub open spec fn label(self) -> Seq<char> {
        match self {
            ReferrerHostClassification::Direct => "direct"@,
            ReferrerHostClassification::Internal => "internal"@,
            ReferrerHostClassification::External => "external"@,
        }
    }

    /// Returns the metric label for this host classification.
    pub fn as_label(&self) -> (r: &'static str)
        ensures
            r@ == self.label(),
    {
        match self {
            ReferrerHostClassification::Direct => "direct",
            ReferrerHostClassification::Internal => "internal",
            ReferrerHostClassification::External => "external",
        }
    }
}

/// Host name of a URL host: lowercased, trailing dots removed.
pub open spec fn clean_host(name: Seq<char>) -> Seq<char> {
    ascii_lower_seq(trim_end_char(name, '.'))
}

pub open spec fn host_is_internal(host: Seq<char>, kind: HostKind) -> bool {
    match kind {
        HostKind::Domain => host == "localhost"@ || ends_with(host, ".localhost"@),
        HostKind::Ipv4(a) => internal_ipv4(a),
        HostKind::Ipv6(b) => internal_ipv6(b),
    }
}

/// The parsed referrer host with its classification, `None` when the
/// referrer is not a URL with a non-empty host.
pub open spec fn referrer_host(referrer: Seq<char>, site_domain: Seq<char>) -> Option<
    (Seq<char>, ReferrerHostClassification),
> {
    if referrer.len() == 0 {
        Some((Seq::empty(), ReferrerHostClassification::Direct))
    } else {
        match url_host_info(referrer) {
            None => None,
            Some((name, kind)) => {
                let host = clean_host(name);
                let site = clean_host(site_domain);
                if host.len() == 0 {
                    None
                } else if host_is_internal(host, kind) {
                    Some((host, ReferrerHostClassification::Internal))
                } else if host == site || ends_with(host, seq!['.'] + site) {
                    Some((host, ReferrerHostClassification::Direct))
                } else {
                    Some((host, ReferrerHostClassification::External))
                }
            },
        }
    }
}

/// Parsed referrer host with its traffic classification.
pub struct ReferrerHost {
    /// Lowercased hostname without trailing dot.
    pub hostname: String,
    /// Traffic classification for the hostname.
    pub classification: ReferrerHostClassification,
}

/// Returns the parsed referrer host for a raw referrer string.
pub fn normalized_referrer_host(referrer: &str, site_domain: &str) -> (r: Option<ReferrerHost>)
    ensures
        match r {
            Some(h) => referrer_host(referrer@, site_domain@) == Some(
                (h.hostname@, h.classification),
            ),
            None => referrer_host(referrer@, site_domain@) is None,
        },
{
    if referrer.is_empty() {
        return Some(
            ReferrerHost {
                hostname: String::new(),
                classification: ReferrerHostClassification::Direct,
            },
        );
    }
    let (name, kind) = match url_host(referrer) {
        Some(info) => info,
        None => return None,
    };
    let host = lower_chars(&trim_end_char_chars(&chars_of(name.as_str()), '.'));
    if host.len() == 0 {
        return None;
    }
    let internal = match kind {
        HostKind::Domain => eq_str(&host, "localhost") || crate::text::ends_with_str(
            &host,
            ".localhost",
        ),
        HostKind::Ipv4(a) => is_internal_ipv4(a),
        HostKind::Ipv6(b) => is_internal_ipv6(b),
    };
    let hostname = string_of(&host);
    if internal {
        return Some(ReferrerHost { hostname, classification: ReferrerHostClassification::Internal });
    }
    let site = lower_chars(&trim_end_char_chars(&chars_of(site_domain), '.'));
    let mut dotted: Vec<char> = Vec::new();
    dotted.push('.');
    let mut k: usize = 0;
    while k < site.len()
        invariant
            k <= site.len(),
            dotted@ == seq!['.'] + site@.take(k as int),
        decreases site.len() - k,
    {
        dotted.push(site[k]);
        assert(site@.take(k + 1) =~= site@.take(k as int).push(site@[k as int]));
        k += 1;
    }
    assert(site@.take(site.len() as int) =~= site@);
    let suffix = string_of(&dotted);
    if crate::text::chars_eq(&host, &site) || crate::text::ends_with_str(&host, suffix.as_str()) {
        return Some(ReferrerHost { hostname, classification: ReferrerHostClassification::Direct });
    }
    Some(ReferrerHost { hostname, classification: ReferrerHostClassification::External })
}

/// The label `extract_referrer_domain` gives a referrer.
pub open spec fn referrer_domain_label(referrer: Seq<char>, site_domain: Seq<char>) -> Option<
    Seq<char>,
> {
    match referrer_host(referrer, site_domain) {
        None => None,
        Some((host, class)) => if class != ReferrerHostClassification::External {
            Some(class.label())
        } else if addr_accepts_domain(host) && psl_registrable_domain(host) is Some {
            psl_registrable_domain(host)
        } else {
            Some("other"@)
        },
    }
}

/// Extracts a low-cardinality external referrer domain or an internal/direct
/// label.
pub fn extract_referrer_domain(referrer: &str, site_domain: &str) -> (r: Option<String>)
    ensures
        match r {
            Some(s) => referrer_domain_label(referrer@, site_domain@) == Some(s@),
            None => referrer_domain_label(referrer@, site_domain@) is None,
        },
{
    let host = match normalized_referrer_host(referrer, site_domain) {
        Some(h) => h,
        None => return None,
    };
    if host.classification != ReferrerHostClassification::External {
        return Some(owned(host.classification.as_label()));
    }
    if addr_domain_ok(host.hostname.as_str()) {
        if let Some(d) = psl_registrable(host.hostname.as_str()) {
            return Some(d);
        }
    }
    Some(owned("other"))
}

/// The label `extract_referrer_url` gives a referrer.
pub open spec fn referrer_url_label(referrer: Seq<char>, site_domain: Seq<char>) -> Option<
    Seq<char>,
> {
    match referrer_host(referrer, site_domain) {
        None => None,
        Some((host, class)) => if class != ReferrerHostClassification::External {
            Some(class.label())
        } else {
            url_without_credentials(referrer)
        },
    }
}

/// Extracts a sanitized external referrer URL or an internal/direct label.
pub fn extract_referrer_url(referrer: &str, site_domain: &str) -> (r: Option<String>)
    ensures
        match r {
            Some(s) => referrer_url_label(referrer@, site_domain@) == Some(s@),
            None => referrer_url_label(referrer@, site_domain@) is None,
        },
{
    let host = match normalized_referrer_host(referrer, site_domain) {
        Some(h) => h,
        None => return None,
    };
    if host.classification != ReferrerHostClassification::External {
        return Some(owned(host.classification.as_label()));
    }
    sanitized_url(referrer)
}

// ---------------------------------------------------------------------------
// Normalizing a normalized path
// ---------------------------------------------------------------------------
/// Whether `c` occurs nowhere in `s`.
pub open spec fn lacks(s: Seq<char>, c: char) -> bool {
    forall|i: int| 0 <= i < s.len() ==> s[i] != c
}

/// A character that occurs in `s` is found by `has_char`.
proof fn lemma_has_char_at(s: Seq<char>, c: char, i: int)
    requires
        0 <= i < s.len(),
        s[i] == c,
    ensures
        has_char(s, c),
    decreases i,
{
    if exists|j: int| 0 <= j < i && s[j] == c {
        let j = choose|j: int| 0 <= j < i && s[j] == c;
        lemma_has_char_at(s, c, j);
    } else {
        assert(is_first_index(s, c, i));
    }
}

/// What precedes the first `c` holds no `c`, and a sequence without `c` is
/// split into itself alone.
proof fn lemma_split_once_lacks(s: Seq<char>, c: char)
    ensures
        lacks(split_once(s, c).0, c),
        lacks(s, c) ==> split_once(s, c) == (s, Option::<Seq<char>>::None),
        lacks(s, c) ==> split(s, c) == seq![s],
        !has_char(s, c) ==> lacks(s, c),
{
    if has_char(s, c) {
        let i = first_index(s, c);
        assert(is_first_index(s, c, i));
        assert(lacks(s.take(i), c));
    } else {
        assert forall|i: int| 0 <= i < s.len() implies s[i] != c by {
            if s[i] == c {
                lemma_has_char_at(s, c, i);
            }
        }
    }
}

/// Splitting `a`, `c`, `b` where `a` holds no `c` separates `a` from `b`.
proof fn lemma_split_at(a: Seq<char>, b: Seq<char>, c: char)
    requires
        lacks(a, c),
    ensures
        split_once(a + seq![c] + b, c) == (a, Some(b)),
        split(a + seq![c] + b, c) == seq![a] + split(b, c),
{
    let s = a + seq![c] + b;
    assert(is_first_index(s, c, a.len() as int));
    lemma_first_index_unique(s, c, a.len() as int);
    assert(s.take(a.len() as int) =~= a);
    assert(s.skip(a.len() + 1int) =~= b);
}

/// Joining a piece in front of others.
proof fn lemma_join_front(x: Seq<char>, segs: Seq<Seq<char>>, sep: Seq<char>)
    requires
        segs.len() > 0,
    ensures
        join(seq![x] + segs, sep) == x + sep + join(segs, sep),
    decreases segs.len(),
{
    let all = seq![x] + segs;
    if segs.len() == 1 {
        assert(all.drop_last() =~= seq![x]);
        assert(segs =~= seq![segs[0]]);
    } else {
        assert(all.drop_last() =~= seq![x] + segs.drop_last());
        lemma_join_front(x, segs.drop_last(), sep);
        assert(join(all, sep) == join(seq![x] + segs.drop_last(), sep) + sep + segs.last());
        assert(x + sep + join(segs.drop_last(), sep) + sep + segs.last() =~= x + sep + (join(
            segs.drop_last(),
            sep,
        ) + sep + segs.last()));
    }
}

/// A character that neither the separator nor any piece holds is not in
/// their join.
proof fn lemma_join_lacks(segs: Seq<Seq<char>>, c: char)
    requires
        c != '/',
        forall|k: int| 0 <= k < segs.len() ==> lacks(#[trigger] segs[k], c),
    ensures
        lacks(join(segs, seq!['/']), c),
    decreases segs.len(),
{
    if segs.len() > 1 {
        lemma_join_lacks(segs.drop_last(), c);
        assert(lacks(segs[segs.len() - 1], c));
        let j = join(segs, seq!['/']);
        let a = join(segs.drop_last(), seq!['/']);
        assert(j == a + seq!['/'] + segs.last());
        assert forall|i: int| 0 <= i < j.len() implies j[i] != c by {
            if i < a.len() {
                assert(j[i] == a[i]);
            } else if i > a.len() {
                assert(j[i] == segs.last()[i - a.len() - 1]);
            }
        }
    } else if segs.len() == 1 {
        assert(lacks(segs[0], c));
    }
}

/// Pieces without separators are split apart again by it.
proof fn lemma_split_join(segs: Seq<Seq<char>>)
    requires
        segs.len() > 0,
        forall|k: int| 0 <= k < segs.len() ==> lacks(#[trigger] segs[k], '/'),
    ensures
        split(join(segs, seq!['/']), '/') == segs,
    decreases segs.len(),
{
    if segs.len() == 1 {
        assert(lacks(segs[0], '/'));
        lemma_split_once_lacks(segs[0], '/');
        assert(segs =~= seq![segs[0]]);
    } else {
        let rest = segs.skip(1);
        assert(segs =~= seq![segs[0]] + rest);
        assert forall|k: int| 0 <= k < rest.len() implies lacks(#[trigger] rest[k], '/') by {
            assert(rest[k] == segs[k + 1]);
        }
        lemma_join_front(segs[0], rest, seq!['/']);
        lemma_split_join(rest);
        assert(lacks(segs[0], '/'));
        lemma_split_at(segs[0], join(rest, seq!['/']), '/');
    }
}

/// The pieces of a split hold no separator, nor any character the whole
/// lacks.
proof fn lemma_split_pieces_lack(s: Seq<char>, c: char, d: char)
    ensures
        forall|k: int| 0 <= k < split(s, c).len() ==> lacks(#[trigger] split(s, c)[k], c),
        lacks(s, d) ==> forall|k: int| 0 <= k < split(s, c).len() ==> lacks(#[trigger] split(s, c)[k], d),
    decreases s.len(),
{
    if has_char(s, c) {
        let i = first_index(s, c);
        assert(is_first_index(s, c, i));
        let head = s.take(i);
        let rest = s.skip(i + 1);
        lemma_split_pieces_lack(rest, c, d);
        assert(lacks(head, c));
        assert(lacks(s, d) ==> lacks(rest, d)) by {
            if lacks(s, d) {
                assert forall|j: int| 0 <= j < rest.len() implies rest[j] != d by {
                    assert(rest[j] == s[i + 1 + j]);
                }
            }
        }
        let all = split(s, c);
        assert(all == seq![head] + split(rest, c));
        assert forall|k: int| 0 <= k < all.len() implies lacks(#[trigger] all[k], c) by {
            if k > 0 {
                assert(all[k] == split(rest, c)[k - 1]);
            }
        }
        if lacks(s, d) {
            assert forall|k: int| 0 <= k < all.len() implies lacks(#[trigger] all[k], d) by {
                if k > 0 {
                    assert(all[k] == split(rest, c)[k - 1]);
                }
            }
        }
    } else {
        lemma_split_once_lacks(s, c);
    }
}

/// A segment a normalized path keeps: not empty, no dot segment, and
/// holding no separator, query or fragment mark.
pub open spec fn clean_segment(x: Seq<char>) -> bool {
    &&& x.len() > 0
    &&& x != seq!['.']
    &&& x != seq!['.', '.']
    &&& lacks(x, '/')
    &&& lacks(x, '?')
    &&& lacks(x, '#')
}

/// Resolution keeps only clean segments of pieces without marks.
proof fn lemma_resolve_clean(pieces: Seq<Seq<char>>)
    requires
        forall|k: int| 0 <= k < pieces.len() ==> {
            &&& lacks(#[trigger] pieces[k], '/')
            &&& lacks(pieces[k], '?')
            &&& lacks(pieces[k], '#')
        },
    ensures
        forall|k: int| 0 <= k < resolve_segments(pieces).len() ==> clean_segment(
            #[trigger] resolve_segments(pieces)[k],
        ),
    decreases pieces.len(),
{
    if pieces.len() > 0 {
        let init = pieces.drop_last();
        assert forall|k: int| 0 <= k < init.len() implies {
            &&& lacks(#[trigger] init[k], '/')
            &&& lacks(init[k], '?')
            &&& lacks(init[k], '#')
        } by {
            assert(init[k] == pieces[k]);
        }
        lemma_resolve_clean(init);
        let acc = resolve_segments(init);
        let last = pieces[pieces.len() - 1];
        let r = resolve_segments(pieces);
        assert(r == resolve_step(acc, last));
        assert forall|k: int| 0 <= k < r.len() implies clean_segment(#[trigger] r[k]) by {
            if k < acc.len() {
                assert(r[k] == acc[k]);
            } else {
                assert(r[k] == last);
            }
        }
    }
}

/// Clean segments behind a leading empty piece, and possibly before a
/// trailing one, resolve to themselves.
proof fn lemma_resolve_clean_fixed(segs: Seq<Seq<char>>)
    requires
        forall|k: int| 0 <= k < segs.len() ==> clean_segment(#[trigger] segs[k]),
    ensures
        resolve_segments(seq![Seq::<char>::empty()] + segs) == segs,
        resolve_segments(seq![Seq::<char>::empty()] + segs + seq![Seq::<char>::empty()]) == segs,
    decreases segs.len(),
{
    let e = Seq::<char>::empty();
    let p = seq![e] + segs;
    if segs.len() == 0 {
        assert(p =~= seq![e]);
        assert(p.drop_last() =~= Seq::<Seq<char>>::empty());
        assert(resolve_segments(p) == resolve_step(resolve_segments(p.drop_last()), p.last()));
        assert(resolve_segments(p) =~= segs);
    } else {
        let init = segs.drop_last();
        assert forall|k: int| 0 <= k < init.len() implies clean_segment(#[trigger] init[k]) by {
            assert(init[k] == segs[k]);
        }
        lemma_resolve_clean_fixed(init);
        assert(p.drop_last() =~= seq![e] + init);
        assert(p.last() == segs.last());
        assert(clean_segment(segs[segs.len() - 1]));
        assert(resolve_segments(p) == resolve_step(resolve_segments(p.drop_last()), p.last()));
        assert(init.push(segs.last()) =~= segs);
    }
    let q = p + seq![e];
    assert(q.drop_last() =~= p);
    assert(q.last() == e);
    assert(resolve_segments(q) == resolve_step(resolve_segments(q.drop_last()), q.last()));
}

/// The segments of a path without query or fragment marks are clean,
/// already collapsed when numeric collapsing is on, and within the segment
/// cap.
proof fn lemma_segments_clean(config: PathConfig, path: Seq<char>)
    requires
        lacks(path, '?'),
        lacks(path, '#'),
    ensures
        forall|k: int| 0 <= k < normalized_segments(config, path).len() ==> clean_segment(
            #[trigger] normalized_segments(config, path)[k],
        ),
        config.collapse_numeric_segments ==> forall|k: int| 0 <= k < normalized_segments(config, path).len()
            ==> collapse_segment(#[trigger] normalized_segments(config, path)[k]) == normalized_segments(config, path)[k],
        config.max_segments > 0 ==> normalized_segments(config, path).len() <= config.max_segments,
{
    let pieces = split(path, '/');
    lemma_split_pieces_lack(path, '/', '?');
    lemma_split_pieces_lack(path, '/', '#');
    assert forall|k: int| 0 <= k < pieces.len() implies {
        &&& lacks(#[trigger] pieces[k], '/')
        &&& lacks(pieces[k], '?')
        &&& lacks(pieces[k], '#')
    } by {}
    lemma_resolve_clean(pieces);
    let segs = resolve_segments(pieces);
    let id = id_placeholder();
    assert(!all_digits(id)) by {
        assert(!is_ascii_digit(id[0]));
    }
    assert(clean_segment(id));
    let collapsed = if config.collapse_numeric_segments {
        segs.map_values(|x: Seq<char>| collapse_segment(x))
    } else {
        segs
    };
    assert forall|k: int| 0 <= k < collapsed.len() implies clean_segment(#[trigger] collapsed[k]) && (
    config.collapse_numeric_segments ==> collapse_segment(collapsed[k]) == collapsed[k]) by {
        if config.collapse_numeric_segments {
            assert(clean_segment(segs[k]));
        }
    }
    let out = normalized_segments(config, path);
    assert forall|k: int| 0 <= k < out.len() implies clean_segment(#[trigger] out[k]) && (
    config.collapse_numeric_segments ==> collapse_segment(out[k]) == out[k]) by {
        assert(out[k] == collapsed[k]);
    }
}

/// The path part of a normalized path: a slash, the segments joined by
/// slashes, and the trailing slash when kept.
pub open spec fn assembled_dir(segs: Seq<Seq<char>>, trailing: bool) -> Seq<char> {
    let base = seq!['/'] + join(segs, seq!['/']);
    if trailing {
        base.push('/')
    } else {
        base
    }
}

/// The path part followed by the query, when kept.
pub open spec fn assembled_query(segs: Seq<Seq<char>>, trailing: bool, query: Option<Seq<char>>) -> Seq<char> {
    match query {
        Some(q) => assembled_dir(segs, trailing).push('?') + q,
        None => assembled_dir(segs, trailing),
    }
}

/// A normalized path assembled from its segments, whether a trailing slash
/// is kept, and the query and fragment kept.
pub open spec fn assemble_path(
    segs: Seq<Seq<char>>,
    trailing: bool,
    query: Option<Seq<char>>,
    fragment: Option<Seq<char>>,
) -> Seq<char> {
    match fragment {
        Some(f) => assembled_query(segs, trailing, query).push('#') + f,
        None => assembled_query(segs, trailing, query),
    }
}

/// The last character of a join is that of its last piece.
proof fn lemma_join_last(segs: Seq<Seq<char>>)
    requires
        segs.len() > 0,
        segs.last().len() > 0,
    ensures
        join(segs, seq!['/']).len() > 0,
        join(segs, seq!['/']).last() == segs.last().last(),
{
    if segs.len() > 1 {
        let a = join(segs.drop_last(), seq!['/']);
        assert(join(segs, seq!['/']) == a + seq!['/'] + segs.last());
    }
}

/// An assembled path comes apart again at its first fragment and query
/// marks.
proof fn lemma_assembled_parts(
    segs: Seq<Seq<char>>,
    trailing: bool,
    query: Option<Seq<char>>,
    fragment: Option<Seq<char>>,
)
    requires
        forall|k: int| 0 <= k < segs.len() ==> clean_segment(#[trigger] segs[k]),
        query matches Some(q) ==> lacks(q, '#'),
    ensures
        split_once(assemble_path(segs, trailing, query, fragment), '#') == (
            assembled_query(segs, trailing, query),
            fragment,
        ),
        split_once(assembled_query(segs, trailing, query), '?') == (
            assembled_dir(segs, trailing),
            query,
        ),
        assemble_path(segs, trailing, query, fragment).len() > 0,
{
    let out = assemble_path(segs, trailing, query, fragment);
    let j = join(segs, seq!['/']);
    let base = seq!['/'] + j;
    let w = assembled_dir(segs, trailing);
    let wq = assembled_query(segs, trailing, query);
    assert forall|k: int| 0 <= k < segs.len() implies lacks(#[trigger] segs[k], '?') && lacks(segs[k], '#') by {
        assert(clean_segment(segs[k]));
    }
    lemma_join_lacks(segs, '?');
    lemma_join_lacks(segs, '#');
    assert(lacks(w, '?') && lacks(w, '#')) by {
        assert forall|i: int| 0 <= i < w.len() implies w[i] != '?' && w[i] != '#' by {
            if 0 < i < base.len() {
                assert(w[i] == j[i - 1]);
            }
        }
    }
    assert(lacks(wq, '#')) by {
        if let Some(q) = query {
            assert forall|i: int| 0 <= i < wq.len() implies wq[i] != '#' by {
                if i > w.len() {
                    assert(wq[i] == q[i - w.len() - 1]);
                } else if i < w.len() {
                    assert(wq[i] == w[i]);
                }
            }
        }
    }
    match fragment {
        Some(f) => {
            assert(out =~= wq + seq!['#'] + f);
            lemma_split_at(wq, f, '#');
        },
        None => {
            lemma_split_once_lacks(wq, '#');
        },
    }
    match query {
        Some(q) => {
            assert(wq =~= w + seq!['?'] + q);
            lemma_split_at(w, q, '?');
        },
        None => {
            lemma_split_once_lacks(w, '?');
        },
    }
    assert(out.len() >= w.len());
}

/// The path part of an assembled path yields its segments again, and ends
/// in a slash that counts as trailing exactly when one was kept.
proof fn lemma_assembled_dir_segments(config: PathConfig, segs: Seq<Seq<char>>, trailing: bool)
    requires
        forall|k: int| 0 <= k < segs.len() ==> clean_segment(#[trigger] segs[k]),
        config.collapse_numeric_segments ==> forall|k: int| 0 <= k < segs.len() ==> collapse_segment(
            #[trigger] segs[k],
        ) == segs[k],
        config.max_segments > 0 ==> segs.len() <= config.max_segments,
        trailing ==> segs.len() > 0,
    ensures
        normalized_segments(config, assembled_dir(segs, trailing)) == segs,
        (ends_with(assembled_dir(segs, trailing), seq!['/']) && assembled_dir(segs, trailing) != seq!['/'])
            == trailing,
{
    let e = Seq::<char>::empty();
    let j = join(segs, seq!['/']);
    let w = assembled_dir(segs, trailing);
    assert forall|k: int| 0 <= k < segs.len() implies lacks(#[trigger] segs[k], '/') by {
        assert(clean_segment(segs[k]));
    }
    if segs.len() == 0 {
        assert(j =~= e);
        let pieces = seq![e] + segs + seq![e];
        assert(pieces =~= seq![e, e]);
        assert(pieces.drop_last() =~= seq![e]);
        assert(join(pieces, seq!['/']) == join(seq![e], seq!['/']) + seq!['/'] + e);
        assert(join(pieces, seq!['/']) =~= w);
        lemma_split_join(pieces);
        lemma_resolve_clean_fixed(segs);
        assert(w =~= seq!['/']);
    } else if !trailing {
        let pieces = seq![e] + segs;
        lemma_join_front(e, segs, seq!['/']);
        assert(join(pieces, seq!['/']) =~= w);
        assert forall|k: int| 0 <= k < pieces.len() implies lacks(#[trigger] pieces[k], '/') by {
            if k > 0 {
                assert(pieces[k] == segs[k - 1]);
            }
        }
        lemma_split_join(pieces);
        lemma_resolve_clean_fixed(segs);
        assert(clean_segment(segs[segs.len() - 1]));
        lemma_join_last(segs);
        assert(w.last() == j.last());
        assert(lacks(segs.last(), '/'));
        assert(segs.last()[segs.last().len() - 1] != '/');
        assert(w.last() != '/');
        assert(!ends_with(w, seq!['/'])) by {
            if ends_with(w, seq!['/']) {
                assert(w.subrange(w.len() - 1, w.len() as int)[0] == w.last());
            }
        }
    } else {
        let front = seq![e] + segs;
        let pieces = front + seq![e];
        lemma_join_front(e, segs, seq!['/']);
        assert(pieces.drop_last() =~= front);
        assert(pieces.last() == e);
        assert(join(pieces, seq!['/']) == join(front, seq!['/']) + seq!['/'] + e);
        assert(join(pieces, seq!['/']) =~= w);
        assert forall|k: int| 0 <= k < pieces.len() implies lacks(#[trigger] pieces[k], '/') by {
            if 0 < k < pieces.len() - 1 {
                assert(pieces[k] == segs[k - 1]);
            }
        }
        lemma_split_join(pieces);
        lemma_resolve_clean_fixed(segs);
        assert(clean_segment(segs[0]));
        assert(w.len() > 2);
        assert(w.subrange(w.len() - 1, w.len() as int) =~= seq!['/']);
    }
    if config.collapse_numeric_segments {
        assert(segs.map_values(|x: Seq<char>| collapse_segment(x)) =~= segs);
    }
}

/// A path assembled from clean segments normalizes to itself.
proof fn lemma_assembled_fixed(
    config: PathConfig,
    segs: Seq<Seq<char>>,
    trailing: bool,
    query: Option<Seq<char>>,
    fragment: Option<Seq<char>>,
)
    requires
        forall|k: int| 0 <= k < segs.len() ==> clean_segment(#[trigger] segs[k]),
        config.collapse_numeric_segments ==> forall|k: int| 0 <= k < segs.len() ==> collapse_segment(
            #[trigger] segs[k],
        ) == segs[k],
        config.max_segments > 0 ==> segs.len() <= config.max_segments,
        trailing ==> !config.normalize_trailing_slash && segs.len() > 0,
        query matches Some(q) ==> !config.strip_query && lacks(q, '#'),
        fragment is Some ==> !config.strip_fragment,
        utf8_len(assemble_path(segs, trailing, query, fragment)) <= MAX_PATH_LEN,
    ensures
        normalize_path(config, assemble_path(segs, trailing, query, fragment)) == assemble_path(
            segs,
            trailing,
            query,
            fragment,
        ),
{
    lemma_assembled_parts(segs, trailing, query, fragment);
    lemma_assembled_dir_segments(config, segs, trailing);
}

/// Normalizing a normalized path changes nothing, as long as the normalized
/// path stays within the length bound.
pub proof fn normalize_path_idempotent(config: PathConfig, input: Seq<char>)
    requires
        utf8_len(normalize_path(config, input)) <= MAX_PATH_LEN,
    ensures
        normalize_path(config, normalize_path(config, input)) == normalize_path(config, input),
{
    let out = normalize_path(config, input);
    if input.len() == 0 || utf8_len(input) > MAX_PATH_LEN {
        let none = Seq::<Seq<char>>::empty();
        assert(join(none, seq!['/']) =~= Seq::<char>::empty());
        assert(assemble_path(none, false, None, None) =~= out);
        lemma_assembled_fixed(config, none, false, None, None);
    } else {
        let pq = split_once(input, '#').0;
        let fragment = split_once(input, '#').1;
        let path = split_once(pq, '?').0;
        let query = split_once(pq, '?').1;
        lemma_split_once_lacks(input, '#');
        lemma_split_once_lacks(pq, '?');
        assert(lacks(path, '#')) by {
            if has_char(pq, '?') {
                let i = first_index(pq, '?');
                assert(is_first_index(pq, '?', i));
                assert forall|k: int| 0 <= k < path.len() implies path[k] != '#' by {
                    assert(path[k] == pq[k]);
                }
            }
        }
        assert(query matches Some(q) ==> lacks(q, '#')) by {
            if has_char(pq, '?') {
                let i = first_index(pq, '?');
                assert(is_first_index(pq, '?', i));
                let q = pq.skip(i + 1);
                assert forall|k: int| 0 <= k < q.len() implies q[k] != '#' by {
                    assert(q[k] == pq[i + 1 + k]);
                }
            }
        }
        lemma_segments_clean(config, path);
        let segs = normalized_segments(config, path);
        let had = ends_with(path, seq!['/']) && path != seq!['/'];
        let trailing = !config.normalize_trailing_slash && had && segs.len() > 0;
        let kept_query = if !config.strip_query && query is Some {
            query
        } else {
            None
        };
        let kept_fragment = if !config.strip_fragment && fragment is Some {
            fragment
        } else {
            None
        };
        assert(assemble_path(segs, trailing, kept_query, kept_fragment) == out);
        lemma_assembled_fixed(config, segs, trailing, kept_query, kept_fragment);
    }
}

/// Dot-segment resolution keeps no empty segment.
proof fn lemma_resolve_nonempty(pieces: Seq<Seq<char>>)
    ensures
        forall|k: int| 0 <= k < resolve_segments(pieces).len() ==> (#[trigger] resolve_segments(pieces)[k]).len() > 0,
    decreases pieces.len(),
{
    if pieces.len() > 0 {
        let init = pieces.drop_last();
        lemma_resolve_nonempty(init);
        let acc = resolve_segments(init);
        let r = resolve_segments(pieces);
        assert(r == resolve_step(acc, pieces.last()));
        assert forall|k: int| 0 <= k < r.len() implies (#[trigger] r[k]).len() > 0 by {
            if k < acc.len() {
                assert(r[k] == acc[k]);
            }
        }
    }
}

/// With numeric collapsing on, a path segment becomes `:id` exactly when it
/// is made of ASCII digits alone: the `k`-th segment kept is `:id` for a
/// segment of digits, and any segment holding another character is kept as
/// it is.
pub proof fn numeric_collapse_replaces_only_numbers(config: PathConfig, path: Seq<char>, k: int)
    requires
        config.collapse_numeric_segments,
        0 <= k < normalized_segments(config, path).len(),
    ensures
        ({
            let seg = resolve_segments(split(path, '/'))[k];
            &&& seg.len() > 0
            &&& (forall|i: int| 0 <= i < seg.len() ==> '0' <= #[trigger] seg[i] <= '9')
                ==> normalized_segments(config, path)[k] == ":id"@
            &&& (exists|i: int| 0 <= i < seg.len() && !('0' <= #[trigger] seg[i] <= '9'))
                ==> normalized_segments(config, path)[k] == seg
        }),
{
    let segs = resolve_segments(split(path, '/'));
    lemma_resolve_nonempty(split(path, '/'));
    let collapsed = segs.map_values(|x: Seq<char>| collapse_segment(x));
    assert(normalized_segments(config, path)[k] == collapsed[k]);
    assert(collapsed[k] == collapse_segment(segs[k]));
    reveal_strlit(":id");
    assert(id_placeholder() =~= ":id"@);
}

} // verus!
