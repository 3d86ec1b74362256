//! The decision core of the per-connection proxy pipeline: admission,
//! target selection over the live statistics, cache lookup, and the
//! bookkeeping around a dispatch. The caller moves bytes and drives these
//! steps in order; every decision is taken here.

use vstd::prelude::*;

use crate::balance::BalanceStrategy;
use crate::cache::Cache;
use crate::config::{RequestModificationRule, Route};
use crate::http::{rate_limit_response, rewrite_request, spec_rate_limit_response};
use crate::rate_limiter::{ConfiguredRateLimiter, RateLimiter};
use crate::stats::TargetStats;

verus! {

/// One listener's policy and state: the strategy, the target list with its
/// statistics, weights and health, the response cache, and the admission
/// limiter.
pub struct ProxyEngine {
    strategy: BalanceStrategy,
    targets: Vec<String>,
    stats: TargetStats,
    weights: Option<Vec<u64>>,
    health: Option<Vec<bool>>,
    max_requests_per_target: Option<u64>,
    cache: Cache,
    cache_enabled_endpoints: Vec<String>,
    limiter: Option<ConfiguredRateLimiter>,
    rules: Vec<RequestModificationRule>,
}

impl ProxyEngine {
    pub closed spec fn spec_strategy(&self) -> BalanceStrategy {
        self.strategy
    }

    pub closed spec fn spec_targets(&self) -> Seq<String> {
        self.targets@
    }

    pub closed spec fn spec_stats(&self) -> TargetStats {
        self.stats
    }

    pub closed spec fn spec_cache(&self) -> Cache {
        self.cache
    }

    pub closed spec fn spec_limiter(&self) -> Option<ConfiguredRateLimiter> {
        self.limiter
    }

    pub closed spec fn spec_health(&self) -> Option<Seq<bool>> {
        match self.health {
            Some(h) => Some(h@),
            None => None,
        }
    }

    pub closed spec fn spec_weights(&self) -> Option<Seq<u64>> {
        match self.weights {
            Some(w) => Some(w@),
            None => None,
        }
    }

    pub closed spec fn spec_max_requests(&self) -> Option<u64> {
        self.max_requests_per_target
    }

    pub closed spec fn spec_cache_enabled_list(&self) -> Seq<String> {
        self.cache_enabled_endpoints@
    }

    pub closed spec fn spec_rules(&self) -> Seq<RequestModificationRule> {
        self.rules@
    }

    /// Whether responses for `path` are cached.
    pub open spec fn spec_cache_enabled(&self, path: Seq<char>) -> bool {
        exists|i: int|
            0 <= i < self.spec_cache_enabled_list().len() && (
            #[trigger] self.spec_cache_enabled_list()[i])@ == path
    }

    /// The engine's pieces agree on the target count and are each well
    /// formed.
    pub closed spec fn wf(&self) -> bool {
        &&& self.stats.wf()
        &&& self.stats.spec_in_flight().len() == self.targets@.len()
        &&& self.cache.wf()
        &&& (match self.weights {
            Some(w) => w@.len() == self.targets@.len() && (forall|i: int|
                0 <= i < w@.len() ==> 1 <= #[trigger] w@[i]) && crate::balance::spec_weight_sum(w@)
                <= u64::MAX,
            None => true,
        })
        &&& (match self.health {
            Some(h) => h@.len() == self.targets@.len(),
            None => true,
        })
        &&& (match self.limiter {
            Some(l) => l.wf(),
            None => true,
        })
    }

    pub fn new(
        strategy: BalanceStrategy,
        targets: Vec<String>,
        weights: Option<Vec<u64>>,
        max_requests_per_target: Option<u64>,
        cache_ttl_millis: u64,
        cache_capacity: usize,
        cache_enabled_endpoints: Vec<String>,
        limiter: Option<ConfiguredRateLimiter>,
        rules: Vec<RequestModificationRule>,
    ) -> (r: Self)
        requires
            match weights {
                Some(w) => w@.len() == targets@.len() && (forall|i: int|
                    0 <= i < w@.len() ==> 1 <= #[trigger] w@[i]) && crate::balance::spec_weight_sum(
                    w@,
                ) <= u64::MAX,
                None => true,
            },
            match limiter {
                Some(l) => l.wf(),
                None => true,
            },
        ensures
            r.wf(),
            r.spec_strategy() == strategy,
            r.spec_targets() == targets@,
            r.spec_cache().spec_ttl_millis() == cache_ttl_millis,
            r.spec_cache().spec_capacity() == cache_capacity,
            r.spec_cache().spec_len() == 0,
            r.spec_cache_enabled_list() == cache_enabled_endpoints@,
            r.spec_limiter() == limiter,
            r.spec_rules() == rules@,
            r.spec_weights() == (match weights {
                Some(w) => Some(w@),
                None => None::<Seq<u64>>,
            }),
            r.spec_max_requests() == max_requests_per_target,
            r.spec_health() is None,
            forall|i: int|
                0 <= i < targets@.len() ==> #[trigger] r.spec_stats().spec_in_flight()[i] == 0,
    {
        let n = targets.len();
        ProxyEngine {
            strategy,
            targets,
            stats: TargetStats::new(n),
            weights,
            health: None,
            max_requests_per_target,
            cache: Cache::new(cache_ttl_millis, cache_capacity),
            cache_enabled_endpoints,
            limiter,
            rules,
        }
    }

    /// Whether a weight vector can govern the given number of targets:
    /// aligned, every weight positive, and the sum within the numeric
    /// range.
    pub open spec fn spec_weights_usable(weights: Option<Seq<u64>>, target_count: int) -> bool {
        match weights {
            Some(w) => w.len() == target_count && (forall|i: int|
                0 <= i < w.len() ==> 1 <= #[trigger] w[i]) && crate::balance::spec_weight_sum(w)
                <= u64::MAX,
            None => true,
        }
    }

    /// Whether a route can be acted on: its weights are usable and its
    /// cache time-to-live fits in milliseconds.
    pub open spec fn spec_route_usable(route: Route) -> bool {
        &&& ProxyEngine::spec_weights_usable(
            match route.target_weights {
                Some(w) => Some(w@),
                None => None,
            },
            route.target_addrs@.len() as int,
        )
        &&& (match route.cache_ttl_seconds {
            Some(secs) => secs * 1000 <= u64::MAX,
            None => true,
        })
    }

    /// Checks that a weight vector can govern `target_count` targets.
    fn weights_usable(weights: &Vec<u64>, target_count: usize) -> (r: bool)
        ensures
            r == ProxyEngine::spec_weights_usable(Some(weights@), target_count as int),
    {
        if weights.len() != target_count {
            return false;
        }
        let n = weights.len();
        let mut sum: u128 = 0;
        let mut i: usize = 0;
        proof {
            assert(weights@.take(0) =~= Seq::<u64>::empty());
        }
        while i < n
            invariant
                i <= n,
                n == weights@.len(),
                sum == crate::balance::spec_weight_sum(weights@.take(i as int)),
                sum <= i as int * 0xffff_ffff_ffff_ffffu64 as int,
                forall|j: int| 0 <= j < i ==> 1 <= #[trigger] weights@[j],
            decreases n - i,
        {
            if weights[i] == 0 {
                return false;
            }
            proof {
                assert(weights@.take(i as int + 1).drop_last() =~= weights@.take(i as int));
            }
            sum = sum + weights[i] as u128;
            i += 1;
        }
        proof {
            assert(weights@.take(n as int) =~= weights@);
        }
        sum <= u64::MAX as u128
    }

    /// Builds the engine a route configures: the strategy its name selects,
    /// a cache of the route's time-to-live and capacity, the route's
    /// weights, request ceiling, cache-enabled paths and rewrite rules.
    /// Exactly the routes whose weight vector is unusable (misaligned, a
    /// zero weight, or a sum beyond the numeric range) or whose
    /// time-to-live does not fit in milliseconds yield nothing.
    pub fn from_route(route: Route, limiter: Option<ConfiguredRateLimiter>) -> (r: Option<Self>)
        requires
            match limiter {
                Some(l) => l.wf(),
                None => true,
            },
        ensures
            r is Some <==> ProxyEngine::spec_route_usable(route),
            r matches Some(e) ==> {
                &&& e.wf()
                &&& e.spec_targets() == route.target_addrs@
                &&& e.spec_strategy() == crate::balance::spec_strategy_from(
                    route.balance_strategy@,
                )
                &&& e.spec_weights() == (match route.target_weights {
                    Some(w) => Some(w@),
                    None => None::<Seq<u64>>,
                })
                &&& e.spec_max_requests() == route.max_requests_per_target
                &&& e.spec_cache().spec_ttl_millis() == (match route.cache_ttl_seconds {
                    Some(secs) => secs * 1000,
                    None => 0,
                })
                &&& e.spec_cache().spec_capacity() == (match route.cache_capacity {
                    Some(c) => c as int,
                    None => 0,
                })
                &&& e.spec_cache().spec_len() == 0
                &&& e.spec_cache_enabled_list() == (match route.cache_enabled_endpoints {
                    Some(v) => v@,
                    None => Seq::<String>::empty(),
                })
                &&& e.spec_rules() == (match route.request_modification_rules {
                    Some(v) => v@,
                    None => Seq::<RequestModificationRule>::empty(),
                })
                &&& e.spec_limiter() == limiter
                &&& e.spec_health() is None
                &&& forall|i: int|
                    0 <= i < route.target_addrs@.len()
                        ==> #[trigger] e.spec_stats().spec_in_flight()[i] == 0
            },
    {
        let target_count = route.target_addrs.len();
        match &route.target_weights {
            Some(w) => {
                if !ProxyEngine::weights_usable(w, target_count) {
                    return None;
                }
            },
            None => {},
        }
        let ttl_millis = match route.cache_ttl_seconds {
            Some(secs) => {
                if secs > u64::MAX / 1000 {
                    return None;
                }
                secs * 1000
            },
            None => 0,
        };
        let strategy = BalanceStrategy::from_str(route.balance_strategy.as_str());
        Some(
            ProxyEngine::new(
                strategy,
                route.target_addrs,
                route.target_weights,
                route.max_requests_per_target,
                ttl_millis,
                match route.cache_capacity {
                    Some(c) => c,
                    None => 0,
                },
                match route.cache_enabled_endpoints {
                    Some(e) => e,
                    None => Vec::new(),
                },
                limiter,
                match route.request_modification_rules {
                    Some(rules) => rules,
                    None => Vec::new(),
                },
            ),
        )
    }

    /// Replaces the health map with a fresh probe result.
    pub fn set_health(&mut self, health: Vec<bool>)
        requires
            old(self).wf(),
            health@.len() == old(self).spec_targets().len(),
        ensures
            final(self).wf(),
            final(self).spec_health() == Some(health@),
            final(self).spec_targets() == old(self).spec_targets(),
            final(self).spec_cache() == old(self).spec_cache(),
            final(self).spec_limiter() == old(self).spec_limiter(),
            final(self).spec_stats() == old(self).spec_stats(),
            final(self).spec_weights() == old(self).spec_weights(),
            final(self).spec_max_requests() == old(self).spec_max_requests(),
            final(self).spec_rules() == old(self).spec_rules(),
            final(self).spec_cache_enabled_list() == old(self).spec_cache_enabled_list(),
    {
        self.health = Some(health);
    }

    /// Admission: a configured limiter decides; on rejection the rejection
    /// response to write back is returned and the connection is to close.
    /// Without a limiter every connection is admitted.
    pub fn check_admission(&mut self, client_ip: &str, now_millis: u64) -> (r: Option<Vec<u8>>)
        requires
            old(self).wf(),
        ensures
            final(self).wf(),
            final(self).spec_targets() == old(self).spec_targets(),
            final(self).spec_cache() == old(self).spec_cache(),
            final(self).spec_stats() == old(self).spec_stats(),
            old(self).spec_limiter() is None ==> r is None && final(self).spec_limiter() is None,
            old(self).spec_limiter() matches Some(l0) ==> (final(self).spec_limiter()
                matches Some(l1) && ConfiguredRateLimiter::allow_spec(
                l0,
                l1,
                client_ip@,
                now_millis,
                r is None,
            )),
            r matches Some(b) ==> b@ == spec_rate_limit_response(),
    {
        match &mut self.limiter {
            None => None,
            Some(l) => {
                if l.allow(client_ip, now_millis) {
                    None
                } else {
                    Some(rate_limit_response())
                }
            },
        }
    }

    /// Target selection over the current statistics and health, under this
    /// engine's strategy: the full per-strategy characterization of
    /// `select_target`, read over the engine's own state. `client_ip`
    /// matters only to IP-hash, and `resource_scores` only to
    /// resource-based selection.
    pub fn select(
        &self,
        client_ip: Option<&String>,
        resource_scores: Option<&Vec<Option<u64>>>,
    ) -> (r: Option<String>)
        requires
            self.wf(),
        ensures
            crate::balance::spec_selection(
                self.spec_strategy(),
                self.spec_targets(),
                self.spec_stats().spec_in_flight(),
                self.spec_stats().spec_request_counts(),
                self.spec_max_requests(),
                crate::balance::spec_scores_view(resource_scores),
                self.spec_weights(),
                self.spec_health(),
                crate::balance::spec_ip_view(client_ip),
                r,
            ),
            (match r {
                Some(t) => exists|i: int|
                    0 <= i < self.spec_targets().len() && t@ == (
                    #[trigger] self.spec_targets()[i])@ && (!(self.spec_strategy() is IPHash)
                        ==> (match self.spec_health() {
                        Some(h) => h[i],
                        None => true,
                    })),
                None => true,
            }),
            self.spec_targets().len() == 0 ==> r is None,
    {
        let health_ref = self.health.as_ref();
        let weights_ref = self.weights.as_ref();
        let in_flight_ref = self.stats.in_flight_counts();
        let requests_ref = self.stats.request_counts();
        let r = self.strategy.select_target(
            &self.targets,
            in_flight_ref,
            requests_ref,
            self.max_requests_per_target,
            resource_scores,
            weights_ref,
            health_ref,
            client_ip,
        );
        proof {
            assert(crate::balance::spec_health_view(health_ref) == self.spec_health());
            assert(crate::balance::spec_weights_view(weights_ref) == self.spec_weights());
            assert(crate::balance::spec_selection(
                self.spec_strategy(),
                self.spec_targets(),
                self.spec_stats().spec_in_flight(),
                self.spec_stats().spec_request_counts(),
                self.spec_max_requests(),
                crate::balance::spec_scores_view(resource_scores),
                self.spec_weights(),
                self.spec_health(),
                crate::balance::spec_ip_view(client_ip),
                r,
            ));
            match &r {
                Some(t) => {
                    let h = crate::balance::spec_health_view(health_ref);
                    assert(exists|i: int|
                        0 <= i < self.spec_targets().len() && t@ == (
                        #[trigger] self.spec_targets()[i])@ && (!(self.spec_strategy() is IPHash)
                            ==> (match self.spec_health() {
                            Some(hs) => hs[i],
                            None => true,
                        }))) by {
                        let i0 = choose|i: int|
                            0 <= i < self.targets@.len() && t@ == (#[trigger] self.targets@[i])@
                                && (!(self.strategy is IPHash) ==> crate::balance::spec_healthy(
                                h,
                                i,
                            ));
                        assert(self.spec_targets()[i0]@ == t@);
                        assert(!(self.spec_strategy() is IPHash) ==> (match self.spec_health() {
                            Some(hs) => hs[i0],
                            None => true,
                        }));
                    }
                },
                None => {},
            }
        }
        r
    }

    /// The position of a selected target address in the target list.
    pub fn index_of_target(&self, addr: &String) -> (r: Option<usize>)
        requires
            self.wf(),
        ensures
            match r {
                Some(i) => i < self.spec_targets().len() && self.spec_targets()[i as int]@
                    == addr@,
                None => forall|i: int|
                    0 <= i < self.spec_targets().len() ==> (#[trigger] self.spec_targets()[i])@
                        !== addr@,
            },
    {
        let n = self.targets.len();
        let mut i: usize = 0;
        while i < n
            invariant
                i <= n,
                n == self.targets@.len(),
                forall|j: int| 0 <= j < i ==> (#[trigger] self.targets@[j])@ !== addr@,
            decreases n - i,
        {
            if self.targets[i] == *addr {
                return Some(i);
            }
            i += 1;
        }
        None
    }

    /// Whether responses for `path` are cached on this route.
    pub fn cache_enabled(&self, path: &String) -> (r: bool)
        ensures
            r == self.spec_cache_enabled(path@),
    {
        let n = self.cache_enabled_endpoints.len();
        let mut i: usize = 0;
        while i < n
            invariant
                i <= n,
                n == self.cache_enabled_endpoints@.len(),
                forall|j: int|
                    0 <= j < i ==> (#[trigger] self.cache_enabled_endpoints@[j])@ !== path@,
            decreases n - i,
        {
            if self.cache_enabled_endpoints[i] == *path {
                proof {
                    assert(self.spec_cache_enabled_list()[i as int]@ == path@);
                }
                return true;
            }
            i += 1;
        }
        false
    }

    /// Whether any rewrite rules are configured for this route.
    pub fn has_rules(&self) -> (r: bool)
        ensures
            r == (self.spec_rules().len() > 0),
    {
        self.rules.len() > 0
    }

    /// Rewrites an incoming raw request under this route's rules, exactly
    /// as `http::rewrite_request` does; a malformed request line yields
    /// nothing and the connection is to close.
    pub fn rewrite_incoming(&self, request: &str) -> (r: Option<String>)
        ensures
            ({
                let s = request@;
                let he = crate::http::spec_header_split(s);
                let header_str = s.take(he);
                let body = s.skip(he);
                let fl = crate::http::spec_find_sub(header_str, seq!['\n'], 0);
                let raw_line = if fl == -1 {
                    header_str
                } else {
                    header_str.take(fl)
                };
                let line = crate::http::spec_strip_cr(raw_line);
                let rest = if fl == -1 {
                    Seq::<char>::empty()
                } else {
                    header_str.skip(fl + 1)
                };
                &&& (r is Some <==> crate::http::spec_request_line_valid(line))
                &&& (r matches Some(out) ==> out@ == ({
                    let collected = crate::http::spec_collect_headers(rest, Seq::empty());
                    let applied = crate::http::spec_apply_rules(
                        crate::http::spec_request_path(line),
                        collected,
                        self.spec_rules(),
                    );
                    crate::http::spec_render_request(
                        crate::http::spec_request_method(line),
                        applied.0,
                        applied.1,
                        body,
                    )
                }))
            }),
    {
        rewrite_request(request, &self.rules)
    }

    /// The cache's time-to-live in milliseconds.
    pub fn cache_ttl_millis(&self) -> (r: u64)
        ensures
            r == self.spec_cache().spec_ttl_millis(),
    {
        self.cache.ttl_millis()
    }

    /// The in-flight connection count of target `i`.
    pub fn in_flight_of(&self, i: usize) -> (r: u64)
        requires
            self.wf(),
            i < self.spec_targets().len(),
        ensures
            r == self.spec_stats().spec_in_flight()[i as int],
    {
        self.stats.in_flight_counts()[i]
    }

    /// Cache lookup for a request path: asked only on cache-enabled paths,
    /// it answers from the cache under the cache's own contract.
    pub fn cache_lookup(&mut self, path: &str, now_millis: u64) -> (r: Option<Vec<u8>>)
        requires
            old(self).wf(),
        ensures
            final(self).wf(),
            final(self).spec_targets() == old(self).spec_targets(),
            final(self).spec_stats() == old(self).spec_stats(),
            final(self).spec_limiter() == old(self).spec_limiter(),
            old(self).spec_cache().spec_contains(path@) && now_millis <= old(self).spec_cache().spec_entry(path@).spec_expiry() ==> (r matches Some(v) && v@ == old(self).spec_cache().spec_entry(path@).spec_value()),
            !old(self).spec_cache().spec_contains(path@) ==> r is None,
            old(self).spec_cache().spec_contains(path@) && now_millis > old(self).spec_cache().spec_entry(path@).spec_expiry() ==> r is None,
    {
        self.cache.get(path, now_millis)
    }

    /// A connection to target `i` is being dispatched: its in-flight count
    /// rises by one and its request count is charged.
    pub fn record_dispatch(&mut self, i: usize)
        requires
            old(self).wf(),
            i < old(self).spec_targets().len(),
            old(self).spec_stats().spec_in_flight()[i as int] < u64::MAX,
        ensures
            final(self).wf(),
            final(self).spec_targets() == old(self).spec_targets(),
            final(self).spec_cache() == old(self).spec_cache(),
            final(self).spec_limiter() == old(self).spec_limiter(),
            final(self).spec_stats().spec_in_flight() == old(self).spec_stats().spec_in_flight().update(
                i as int,
                (old(self).spec_stats().spec_in_flight()[i as int] + 1) as u64,
            ),
    {
        self.stats.record_dispatch(i);
    }

    /// The splice to target `i` has finished: when it succeeded and the
    /// path is cache-enabled, the captured response is stored; either way
    /// the target's in-flight count falls by one, stopping at zero.
    pub fn record_completion(
        &mut self,
        i: usize,
        path: &String,
        response: Vec<u8>,
        success: bool,
        now_millis: u64,
    )
        requires
            old(self).wf(),
            i < old(self).spec_targets().len(),
            now_millis + old(self).spec_cache().spec_ttl_millis() <= u64::MAX,
        ensures
            final(self).wf(),
            final(self).spec_targets() == old(self).spec_targets(),
            final(self).spec_limiter() == old(self).spec_limiter(),
            final(self).spec_stats().spec_in_flight() == old(self).spec_stats().spec_in_flight().update(
                i as int,
                crate::stats::spec_saturating_sub_one(
                    old(self).spec_stats().spec_in_flight()[i as int],
                ),
            ),
            success && old(self).spec_cache_enabled(path@) ==> final(self).spec_cache().spec_contains(path@) && final(self).spec_cache().spec_entry(
                path@,
            ).spec_value() == response@,
            !(success && old(self).spec_cache_enabled(path@)) ==> final(self).spec_cache() == old(self).spec_cache(),
    {
        if success && self.cache_enabled(path) {
            self.cache.put(path.clone(), response, now_millis);
        }
        self.stats.record_completion(i);
    }
}

} // verus!
