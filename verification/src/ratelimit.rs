//! Fixed-window rate limiting with an independent quota per client address.
use std::collections::HashMap;
use std::time::Instant;

use vstd::prelude::*;
use vstd::std_specs::iter::IteratorSpec;

use crate::net::ClientIp;

verus! {

broadcast use vstd::std_specs::hash::group_hash_axioms;

#[verifier::external_type_specification]
#[verifier::external_body]
pub struct ExInstant(Instant);

/// Upper bound on tracked addresses; expired entries are pruned past it.
pub const MAX_TRACKED_IPS: usize = 100000;

/// Nanoseconds between two full prunes.
pub const PRUNE_INTERVAL_NANOS: u128 = 1000000000;

/// Nanoseconds in one minute.
pub const MINUTE_NANOS: u128 = 60000000000;

/// One fixed window counter. Times are nanoseconds on the limiter's
/// monotonic clock.
#[derive(Clone, Copy, Debug, PartialEq, Eq, Structural)]
pub struct Window {
    /// Requests seen in the current window.
    pub count: u32,
    /// Time the current window started.
    pub start: u128,
}

/// `Instant::now()`.
#[verifier::external_body]
fn instant_now() -> Instant {
    Instant::now()
}

/// Nanoseconds elapsed since `origin` on the monotonic clock
/// (`Instant::elapsed`). Nothing is stated of the value: it depends on the
/// time of the call.
#[verifier::external_body]
fn elapsed_nanos(origin: &Instant) -> u128 {
    origin.elapsed().as_nanos()
}

/// Time since the window started, zero if it starts later (as
/// `Instant::duration_since` saturates).
pub open spec fn age(w: Window, now: u128) -> int {
    if now >= w.start {
        now - w.start
    } else {
        0
    }
}

pub open spec fn expired(w: Window, now: u128, window: u128) -> bool {
    age(w, now) >= window
}

/// The windows still running at `now`.
pub open spec fn fresh_only<K>(m: Map<K, Window>, now: u128, window: u128) -> Map<K, Window> {
    Map::new(|k: K| m.contains_key(k) && !expired(m[k], now, window), |k: K| m[k])
}

/// Outcome of a request from a tracked address: the window restarts when
/// expired, and the request passes while its count is below the limit.
pub open spec fn step_window(w: Window, now: u128, window: u128, limit: u32) -> (bool, Window) {
    let current = if expired(w, now, window) {
        Window { count: 0, start: now }
    } else {
        w
    };
    if current.count >= limit {
        (false, current)
    } else {
        (true, Window { count: (current.count + 1) as u32, start: current.start })
    }
}

/// The per-address windows of a limiter, by family.
pub struct LimiterState {
    pub v4: Map<u32, Window>,
    pub v6: Map<u128, Window>,
    pub next_cleanup: u128,
}

pub open spec fn tracked_count(s: LimiterState) -> nat {
    s.v4.dom().len() + s.v6.dom().len()
}

pub open spec fn is_tracked(s: LimiterState, ip: ClientIp) -> bool {
    match ip {
        ClientIp::V4(a) => s.v4.contains_key(a),
        ClientIp::V6(b) => s.v6.contains_key(b),
    }
}

/// The windows after a prune at `now`, when one is due.
pub open spec fn pruned(s: LimiterState, now: u128, window: u128) -> LimiterState {
    if tracked_count(s) >= MAX_TRACKED_IPS && now >= s.next_cleanup {
        LimiterState {
            v4: fresh_only(s.v4, now, window),
            v6: fresh_only(s.v6, now, window),
            next_cleanup: if now + PRUNE_INTERVAL_NANOS <= u128::MAX {
                (now + PRUNE_INTERVAL_NANOS) as u128
            } else {
                u128::MAX
            },
        }
    } else {
        s
    }
}

/// One request from `ip` at `now`: whether it passes, and the windows after.
pub open spec fn check_step(s: LimiterState, limit: u32, window: u128, ip: ClientIp, now: u128) -> (
    bool,
    LimiterState,
) {
    match ip {
        ClientIp::V4(a) if s.v4.contains_key(a) => {
            let (ok, w) = step_window(s.v4[a], now, window, limit);
            (ok, LimiterState { v4: s.v4.insert(a, w), ..s })
        },
        ClientIp::V6(b) if s.v6.contains_key(b) => {
            let (ok, w) = step_window(s.v6[b], now, window, limit);
            (ok, LimiterState { v6: s.v6.insert(b, w), ..s })
        },
        _ => {
            let p = pruned(s, now, window);
            if tracked_count(p) >= MAX_TRACKED_IPS {
                (false, p)
            } else {
                let w = Window { count: 1, start: now };
                match ip {
                    ClientIp::V4(a) => (true, LimiterState { v4: p.v4.insert(a, w), ..p }),
                    ClientIp::V6(b) => (true, LimiterState { v6: p.v6.insert(b, w), ..p }),
                }
            }
        },
    }
}

/// Fixed-window rate limiter with an independent quota per client address.
///
/// One client cannot consume the budget of others. Aggregate flood
/// protection is intentionally left to edge proxies.
pub struct IpRateLimiter {
    /// Live IPv4 windows keyed by client address.
    v4: HashMap<u32, Window>,
    /// Live IPv6 windows keyed by client address.
    v6: HashMap<u128, Window>,
    /// Earliest time a full prune may run again.
    next_cleanup: u128,
    /// Allowed requests per window for every address.
    limit: u32,
    /// Length of one fixed window, in nanoseconds.
    window: u128,
    /// Origin of the limiter's monotonic clock.
    origin: Instant,
}

fn fresh_windows<K: Copy + Eq + std::hash::Hash>(m: &HashMap<K, Window>, now: u128, window: u128) -> (r: HashMap<K, Window>)
    requires
        vstd::std_specs::hash::obeys_key_model::<K>(),
    ensures
        r@ == fresh_only(m@, now, window),
{
    let mut out: HashMap<K, Window> = HashMap::new();
    let ghost items = m.iter().remaining();
    for item in it: m.iter()
        invariant
            vstd::std_specs::hash::obeys_key_model::<K>(),
            it.seq() == items,
            items.len() == m@.dom().len(),
            forall|i: int|
                #![trigger items[i]]
                0 <= i < items.len() ==> m@.contains_key(*items[i].0) && m@[*items[i].0]
                    == *items[i].1,
            forall|k: K| #[trigger]
                m@.contains_key(k) ==> items.contains((&k, &m@[k])),
            forall|k: K| #[trigger]
                out@.contains_key(k) ==> m@.contains_key(k) && out@[k] == m@[k] && !expired(
                    m@[k],
                    now,
                    window,
                ),
            forall|i: int|
                #![trigger items[i]]
                0 <= i < it.index() && !expired(*items[i].1, now, window) ==> out@.contains_key(
                    *items[i].0,
                ),
    {
        let (k, w) = item;
        if !(if now >= w.start {
            now - w.start
        } else {
            0
        } >= window) {
            out.insert(*k, *w);
        }
    }
    assert(out@ =~= fresh_only(m@, now, window)) by {
        assert forall|k: K| fresh_only(m@, now, window).contains_key(k) implies #[trigger] out@.contains_key(k) by {
            let j = choose|j: int| 0 <= j < items.len() && items[j] == (&k, &m@[k]);
            assert(items[j].0 == &k);
        }
    }
    out
}

impl IpRateLimiter {
    /// The per-address windows and the next prune time.
    pub closed spec fn state(&self) -> LimiterState {
        LimiterState { v4: self.v4@, v6: self.v6@, next_cleanup: self.next_cleanup }
    }

    pub closed spec fn limit(&self) -> u32 {
        self.limit
    }

    pub closed spec fn window(&self) -> u128 {
        self.window
    }

    /// Creates a limiter allowing `limit` requests per minute per address.
    pub fn per_minute(limit: u32) -> (r: Self)
        requires
            limit > 0,
        ensures
            r.limit() == limit,
            r.window() == MINUTE_NANOS,
            r.state().v4 == Map::<u32, Window>::empty(),
            r.state().v6 == Map::<u128, Window>::empty(),
            r.state().next_cleanup == 0,
    {
        Self::with_window(limit, MINUTE_NANOS)
    }

    /// Builds a limiter with an explicit window length in nanoseconds.
    pub fn with_window(limit: u32, window: u128) -> (r: Self)
        requires
            limit > 0,
        ensures
            r.limit() == limit,
            r.window() == window,
            r.state().v4 == Map::<u32, Window>::empty(),
            r.state().v6 == Map::<u128, Window>::empty(),
            r.state().next_cleanup == 0,
    {
        IpRateLimiter {
            v4: HashMap::new(),
            v6: HashMap::new(),
            next_cleanup: 0,
            limit,
            window,
            origin: instant_now(),
        }
    }

    /// Returns true when a request from `ip` fits its current window, reading
    /// the limiter's monotonic clock.
    pub fn check(&mut self, ip: ClientIp) -> (ok: bool)
        ensures
            exists|now: u128|
                (ok, final(self).state()) == check_step(
                    old(self).state(),
                    old(self).limit(),
                    old(self).window(),
                    ip,
                    now,
                ),
            final(self).limit() == old(self).limit(),
            final(self).window() == old(self).window(),
    {
        let now = elapsed_nanos(&self.origin);
        self.check_at(ip, now)
    }

    /// Number of client addresses currently tracked.
    pub fn address_count(&self) -> (n: usize)
        ensures
            n == tracked_count(self.state()) || (n == usize::MAX && tracked_count(self.state()) >= usize::MAX),
    {
        self.v4.len().saturating_add(self.v6.len())
    }

    /// Returns true when a request from `ip` at time `now` (nanoseconds on the
    /// limiter's clock) fits its current window.
    pub fn check_at(&mut self, ip: ClientIp, now: u128) -> (ok: bool)
        ensures
            (ok, final(self).state()) == check_step(
                old(self).state(),
                old(self).limit(),
                old(self).window(),
                ip,
                now,
            ),
            final(self).limit() == old(self).limit(),
            final(self).window() == old(self).window(),
    {
        let window = self.window;
        let limit = self.limit;
        match ip {
            ClientIp::V4(a) => {
                if let Some(w) = self.v4.get(&a) {
                    let (ok, next) = Self::step(*w, now, window, limit);
                    self.v4.insert(a, next);
                    return ok;
                }
            },
            ClientIp::V6(b) => {
                if let Some(w) = self.v6.get(&b) {
                    let (ok, next) = Self::step(*w, now, window, limit);
                    self.v6.insert(b, next);
                    return ok;
                }
            },
        }
        let ghost before = self.state();
        if self.v4.len().saturating_add(self.v6.len()) >= MAX_TRACKED_IPS && now
            >= self.next_cleanup {
            let v4 = fresh_windows(&self.v4, now, window);
            let v6 = fresh_windows(&self.v6, now, window);
            self.v4 = v4;
            self.v6 = v6;
            self.next_cleanup = now.saturating_add(PRUNE_INTERVAL_NANOS);
        }
        assert(self.state() == pruned(before, now, window));
        if self.v4.len().saturating_add(self.v6.len()) >= MAX_TRACKED_IPS {
            return false;
        }
        let w = Window { count: 1, start: now };
        match ip {
            ClientIp::V4(a) => {
                self.v4.insert(a, w);
            },
            ClientIp::V6(b) => {
                self.v6.insert(b, w);
            },
        }
        true
    }

    fn step(w: Window, now: u128, window: u128, limit: u32) -> (r: (bool, Window))
        ensures
            r == step_window(w, now, window, limit),
    {
        let age = if now >= w.start {
            now - w.start
        } else {
            0
        };
        let current = if age >= window {
            Window { count: 0, start: now }
        } else {
            w
        };
        if current.count >= limit {
            (false, current)
        } else {
            (true, Window { count: current.count + 1, start: current.start })
        }
    }
}

/// The window of a tracked address.
pub open spec fn window_of(s: LimiterState, ip: ClientIp) -> Window {
    match ip {
        ClientIp::V4(a) => s.v4[a],
        ClientIp::V6(b) => s.v6[b],
    }
}

/// Within a running window an address gets at most `limit` requests: a
/// request passes exactly when fewer than `limit` were counted, and each pass
/// adds one to the count.
pub proof fn quota_within_window(s: LimiterState, limit: u32, window: u128, ip: ClientIp, now: u128)
    requires
        is_tracked(s, ip),
        !expired(window_of(s, ip), now, window),
    ensures
        check_step(s, limit, window, ip, now).0 == (window_of(s, ip).count < limit),
        is_tracked(check_step(s, limit, window, ip, now).1, ip),
        window_of(check_step(s, limit, window, ip, now).1, ip).start == window_of(s, ip).start,
        window_of(check_step(s, limit, window, ip, now).1, ip).count == (if window_of(s, ip).count
            < limit {
            window_of(s, ip).count + 1
        } else {
            window_of(s, ip).count as int
        }),
{
}

/// A run of requests from `ip` at the instants `times`, in order: how many
/// passed, and the windows after the last.
pub open spec fn checks_run(
    s: LimiterState,
    limit: u32,
    window: u128,
    ip: ClientIp,
    times: Seq<u128>,
) -> (nat, LimiterState)
    decreases times.len(),
{
    if times.len() == 0 {
        (0, s)
    } else {
        let prev = checks_run(s, limit, window, ip, times.drop_last());
        let step = check_step(prev.1, limit, window, ip, times.last());
        (prev.0 + if step.0 {
            1nat
        } else {
            0nat
        }, step.1)
    }
}

/// Over any run of requests that fall within an address's running window,
/// the address gets exactly its remaining quota and no more: with `c`
/// requests counted, `min(n, limit - c)` of `n` requests pass, so never
/// more than `limit` in one window.
pub proof fn quota_holds_over_a_window(
    s: LimiterState,
    limit: u32,
    window: u128,
    ip: ClientIp,
    times: Seq<u128>,
)
    requires
        is_tracked(s, ip),
        window_of(s, ip).count <= limit,
        forall|k: int| 0 <= k < times.len() ==> !expired(window_of(s, ip), #[trigger] times[k], window),
    ensures
        is_tracked(checks_run(s, limit, window, ip, times).1, ip),
        window_of(checks_run(s, limit, window, ip, times).1, ip).start == window_of(s, ip).start,
        checks_run(s, limit, window, ip, times).0 == (if times.len() <= limit - window_of(s, ip).count {
            times.len() as int
        } else {
            limit - window_of(s, ip).count
        }),
        window_of(checks_run(s, limit, window, ip, times).1, ip).count == window_of(s, ip).count
            + checks_run(s, limit, window, ip, times).0,
        checks_run(s, limit, window, ip, times).0 <= limit,
    decreases times.len(),
{
    if times.len() > 0 {
        let rest = times.drop_last();
        assert forall|k: int| 0 <= k < rest.len() implies !expired(window_of(s, ip), #[trigger] rest[k], window) by {
            assert(rest[k] == times[k]);
        }
        quota_holds_over_a_window(s, limit, window, ip, rest);
        let prev = checks_run(s, limit, window, ip, rest);
        assert(!expired(window_of(s, ip), times[times.len() - 1], window));
        quota_within_window(prev.1, limit, window, ip, times.last());
    }
}

/// Once its window has run out, an address's quota is restored: the request
/// passes and opens a new window at `now` with a count of one.
pub proof fn window_expiry_restores_quota(s: LimiterState, limit: u32, window: u128, ip: ClientIp, now: u128)
    requires
        limit > 0,
        is_tracked(s, ip),
        expired(window_of(s, ip), now, window),
    ensures
        check_step(s, limit, window, ip, now).0,
        window_of(check_step(s, limit, window, ip, now).1, ip) == (Window { count: 1, start: now }),
{
}

/// Quotas are independent per address: the outcome for a tracked address
/// depends only on its own window, and a request from it leaves every other
/// address's window untouched.
pub proof fn quotas_are_independent(
    s: LimiterState,
    t: LimiterState,
    limit: u32,
    window: u128,
    ip: ClientIp,
    other: ClientIp,
    now: u128,
)
    requires
        is_tracked(s, ip),
        is_tracked(t, ip),
        window_of(s, ip) == window_of(t, ip),
        other != ip,
    ensures
        check_step(s, limit, window, ip, now).0 == check_step(t, limit, window, ip, now).0,
        is_tracked(check_step(s, limit, window, ip, now).1, other) == is_tracked(s, other),
        is_tracked(s, other) ==> window_of(check_step(s, limit, window, ip, now).1, other)
            == window_of(s, other),
{
}

/// A new address is admitted, with a count of one, whenever fewer than
/// `MAX_TRACKED_IPS` addresses are tracked.
pub proof fn new_address_admitted_with_room(s: LimiterState, limit: u32, window: u128, ip: ClientIp, now: u128)
    requires
        !is_tracked(s, ip),
        tracked_count(s) < MAX_TRACKED_IPS,
    ensures
        check_step(s, limit, window, ip, now).0,
        is_tracked(check_step(s, limit, window, ip, now).1, ip),
        window_of(check_step(s, limit, window, ip, now).1, ip) == (Window { count: 1, start: now }),
{
}

/// The number of tracked addresses never grows past `MAX_TRACKED_IPS`.
pub proof fn tracked_addresses_stay_bounded(s: LimiterState, limit: u32, window: u128, ip: ClientIp, now: u128)
    requires
        s.v4.dom().finite(),
        s.v6.dom().finite(),
        tracked_count(s) <= MAX_TRACKED_IPS,
    ensures
        check_step(s, limit, window, ip, now).1.v4.dom().finite(),
        check_step(s, limit, window, ip, now).1.v6.dom().finite(),
        tracked_count(check_step(s, limit, window, ip, now).1) <= MAX_TRACKED_IPS,
{
    let p = pruned(s, now, window);
    if tracked_count(s) >= MAX_TRACKED_IPS && now >= s.next_cleanup {
        assert(p.v4.dom() <= s.v4.dom());
        assert(p.v6.dom() <= s.v6.dom());
        vstd::set_lib::lemma_len_subset(p.v4.dom(), s.v4.dom());
        vstd::set_lib::lemma_len_subset(p.v6.dom(), s.v6.dom());
    }
    match ip {
        ClientIp::V4(a) => {
            if s.v4.contains_key(a) {
                assert(s.v4.insert(a, step_window(s.v4[a], now, window, limit).1).dom() =~= s.v4.dom());
            }
        },
        ClientIp::V6(b) => {
            if s.v6.contains_key(b) {
                assert(s.v6.insert(b, step_window(s.v6[b], now, window, limit).1).dom() =~= s.v6.dom());
            }
        },
    }
}

} // verus!
