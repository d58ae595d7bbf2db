//! Verified core of Watchdog: privacy-first web analytics aggregated into
//! bounded Prometheus metrics.
pub mod app;
pub mod config;
pub mod event;
pub mod limits;
pub mod metrics;
pub mod net;
pub mod normalize;
pub mod ratelimit;
pub mod registry;
pub mod text;
pub mod uniques;

use vstd::prelude::*;

use crate::text::{chars_of, string_of};

verus! {

/// Build metadata exposed through metrics and logs.
pub struct BuildInfo {
    /// Package version compiled into the binary.
    pub version: String,
    /// Source revision supplied by the build environment, if available.
    pub commit: String,
    /// Build timestamp supplied by the build environment, if available.
    pub build_date: String,
}

/// A build value, or `unknown` when it is absent or empty.
pub open spec fn known_or_unknown(v: Option<Seq<char>>) -> Seq<char> {
    match v {
        Some(s) if s.len() > 0 => s,
        _ => seq!['u', 'n', 'k', 'n', 'o', 'w', 'n'],
    }
}

fn known(v: Option<&str>) -> (r: String)
    ensures
        r@ == known_or_unknown(match v {
            Some(s) => Some(s@),
            None => None,
        }),
{
    match v {
        Some(s) if !s.is_empty() => string_of(&chars_of(s)),
        _ => {
            let u = crate::text::owned("unknown");
            proof {
                reveal_strlit("unknown");
            }
            assert(u@ =~= seq!['u', 'n', 'k', 'n', 'o', 'w', 'n']);
            u
        },
    }
}

impl BuildInfo {
    /// Build metadata from the values embedded at compile time: the package
    /// version, and the commit and build date when the build environment
    /// supplied them (`unknown` otherwise).
    pub fn current(version: &str, commit: Option<&str>, build_date: Option<&str>) -> (r: Self)
        ensures
            r.version@ == version@,
            r.commit@ == known_or_unknown(match commit {
                Some(s) => Some(s@),
                None => None,
            }),
            r.build_date@ == known_or_unknown(match build_date {
                Some(s) => Some(s@),
                None => None,
            }),
    {
        BuildInfo {
            version: string_of(&chars_of(version)),
            commit: known(commit),
            build_date: known(build_date),
        }
    }
}

} // verus!
