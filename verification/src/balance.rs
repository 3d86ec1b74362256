//! Target selection: eight balancing strategies over an ordered target
//! list. Health filtering comes first; each strategy then picks a target,
//! or none. Per-target statistics, weights, health and metric scores are
//! carried as vectors aligned with the target list.

use vstd::prelude::*;

use crate::random::random_below;

verus! {

/// Relies on twox_hash's XxHash64 with seed 0: the digest of a string's
/// bytes depends on the string alone.
pub uninterp spec fn xxhash64_of(s: Seq<char>) -> u64;

#[verifier::external_body]
fn xxhash64(s: &str) -> (r: u64)
    ensures
        r == xxhash64_of(s@),
{
    twox_hash::XxHash64::oneshot(0, s.as_bytes())
}

/// The balancing strategies.
#[derive(Clone, Copy, PartialEq, Eq, Structural)]
pub enum BalanceStrategy {
    RoundRobin,
    Random,
    LeastConnections,
    RateLimiting,
    ResourceBased,
    WeightedRoundRobin,
    DynamicRateLimiting,
    IPHash,
}

/// Whether target `i` counts as healthy: unknown health is healthy.
pub open spec fn spec_healthy(health: Option<Seq<bool>>, i: int) -> bool {
    match health {
        None => true,
        Some(h) => h[i],
    }
}

/// The indices of the healthy targets among `i..n`, in order.
pub open spec fn healthy_indices_from(n: nat, health: Option<Seq<bool>>, i: nat) -> Seq<int>
    decreases n - i,
{
    if i >= n {
        Seq::empty()
    } else {
        let rest = healthy_indices_from(n, health, i + 1);
        if spec_healthy(health, i as int) {
            seq![i as int] + rest
        } else {
            rest
        }
    }
}

/// The indices of the healthy targets, in order.
pub open spec fn spec_filtered(n: nat, health: Option<Seq<bool>>) -> Seq<int> {
    healthy_indices_from(n, health, 0)
}

/// Every filtered index is a healthy position of the list, they ascend,
/// and every healthy position from `i` on appears.
pub proof fn lemma_healthy_indices(n: nat, health: Option<Seq<bool>>, i: nat)
    requires
        i <= n,
    ensures
        forall|j: int|
            0 <= j < healthy_indices_from(n, health, i).len() ==> i <= #[trigger] healthy_indices_from(
                n,
                health,
                i,
            )[j] < n && spec_healthy(health, healthy_indices_from(n, health, i)[j]),
        forall|t: int|
            i <= t < n && spec_healthy(health, t) ==> healthy_indices_from(
                n,
                health,
                i,
            ).contains(t),
        healthy_indices_from(n, health, i).len() == 0 ==> forall|t: int|
            i <= t < n ==> !spec_healthy(health, t),
    decreases n - i,
{
    if i < n {
        lemma_healthy_indices(n, health, (i + 1) as nat);
        let rest = healthy_indices_from(n, health, (i + 1) as nat);
        if spec_healthy(health, i as int) {
            let whole = seq![i as int] + rest;
            assert(whole[0] == i);
            assert forall|j: int| 1 <= j < whole.len() implies whole[j] == rest[j - 1] by {}
            assert forall|t: int|
                i <= t < n && spec_healthy(health, t) implies whole.contains(t) by {
                if t == i {
                    assert(whole[0] == t);
                } else {
                    assert(rest.contains(t));
                    let j = choose|j: int| 0 <= j < rest.len() && rest[j] == t;
                    assert(whole[j + 1] == t);
                }
            }
        }
    }
}

/// The positions a filter result holds are in bounds and healthy, and an
/// empty filter result means no target is healthy.
proof fn lemma_filtered_facts(fseq: Seq<usize>, n: nat, h: Option<Seq<bool>>)
    requires
        fseq.map_values(|u: usize| u as int) == spec_filtered(n, h),
    ensures
        forall|j: int|
            0 <= j < fseq.len() ==> (#[trigger] fseq[j]) < n && spec_healthy(h, fseq[j] as int),
        forall|j: int| 0 <= j < fseq.len() ==> #[trigger] spec_filtered(n, h)[j] == fseq[j] as int,
        fseq.len() == spec_filtered(n, h).len(),
        fseq.len() == 0 ==> forall|t: int| 0 <= t < n ==> !spec_healthy(h, t),
    decreases n,
{
    lemma_healthy_indices(n, h, 0);
    assert(fseq.map_values(|u: usize| u as int).len() == fseq.len());
    assert forall|j: int|
        0 <= j < fseq.len() implies (#[trigger] fseq[j]) < n && spec_healthy(h, fseq[j] as int)
        && spec_filtered(n, h)[j] == fseq[j] as int by {
        assert(fseq.map_values(|u: usize| u as int)[j] == fseq[j] as int);
        assert(healthy_indices_from(n, h, 0)[j] == spec_filtered(n, h)[j]);
        assert(spec_filtered(n, h)[j] == fseq[j] as int);
    }
}

/// The per-target ceiling used by dynamic rate limiting: a loaded target
/// (over 100 connections in flight) is capped at 50, others at 100.
pub fn calculate_dynamic_limit(current_connections: u64) -> (r: u64)
    ensures
        r == (if current_connections > 100 {
            50u64
        } else {
            100u64
        }),
{
    if current_connections > 100 {
        50
    } else {
        100
    }
}

/// The strategy a configuration name selects; an unknown name selects
/// round-robin.
pub open spec fn spec_strategy_from(name: Seq<char>) -> BalanceStrategy {
    if name == "roundrobin"@ {
        BalanceStrategy::RoundRobin
    } else if name == "random"@ {
        BalanceStrategy::Random
    } else if name == "leastconnections"@ {
        BalanceStrategy::LeastConnections
    } else if name == "ratelimiting"@ {
        BalanceStrategy::RateLimiting
    } else if name == "resourcebased"@ {
        BalanceStrategy::ResourceBased
    } else if name == "weightedroundrobin"@ {
        BalanceStrategy::WeightedRoundRobin
    } else if name == "dynamicratelimiting"@ {
        BalanceStrategy::DynamicRateLimiting
    } else if name == "iphash"@ {
        BalanceStrategy::IPHash
    } else {
        BalanceStrategy::RoundRobin
    }
}

/// The sum of a weight vector.
pub open spec fn spec_weight_sum(weights: Seq<u64>) -> int
    decreases weights.len(),
{
    if weights.len() == 0 {
        0
    } else {
        spec_weight_sum(weights.drop_last()) + weights.last()
    }
}

/// The weight of the target at original index `idx`: its entry in the
/// weight vector, or one when no weights are configured.
pub open spec fn spec_weight_of(weights: Option<Seq<u64>>, idx: int) -> int {
    match weights {
        Some(w) => w[idx] as int,
        None => 1,
    }
}

/// The weighted walk: each filtered target's weight is subtracted from the
/// drawn point in order, and the position where the point first falls
/// below the weight is chosen; -1 when the point survives the whole list.
pub open spec fn spec_wrr_pick(filtered: Seq<int>, weights: Option<Seq<u64>>, point: int) -> int
    decreases filtered.len(),
{
    if filtered.len() == 0 {
        -1
    } else if point < spec_weight_of(weights, filtered[0]) {
        0
    } else {
        let rest = spec_wrr_pick(
            filtered.drop_first(),
            weights,
            point - spec_weight_of(weights, filtered[0]),
        );
        if rest == -1 {
            -1
        } else {
            rest + 1
        }
    }
}

/// The summed weights of the filtered targets.
pub open spec fn spec_filtered_weight_sum(filtered: Seq<int>, weights: Option<Seq<u64>>) -> int
    decreases filtered.len(),
{
    if filtered.len() == 0 {
        0
    } else {
        spec_weight_of(weights, filtered[0]) + spec_filtered_weight_sum(
            filtered.drop_first(),
            weights,
        )
    }
}

/// What the weighted walk at `point` yields: no target when the point
/// survives the list, otherwise the target at the position it lands on.
pub open spec fn spec_wrr_outcome(
    filtered: Seq<int>,
    weights: Option<Seq<u64>>,
    point: int,
    targets: Seq<String>,
    r: Option<String>,
) -> bool {
    let pick = spec_wrr_pick(filtered, weights, point);
    if pick == -1 {
        r is None
    } else {
        &&& 0 <= pick < filtered.len()
        &&& r == Some(targets[filtered[pick]])
    }
}

/// The walk yields -1 or a position inside the list.
pub proof fn lemma_wrr_pick_bounds(filtered: Seq<int>, weights: Option<Seq<u64>>, point: int)
    ensures
        -1 <= spec_wrr_pick(filtered, weights, point) < filtered.len(),
    decreases filtered.len(),
{
    if filtered.len() > 0 && point >= spec_weight_of(weights, filtered[0]) {
        lemma_wrr_pick_bounds(
            filtered.drop_first(),
            weights,
            point - spec_weight_of(weights, filtered[0]),
        );
    }
}

/// A draw below the filtered weight sum always lands on some position.
pub proof fn lemma_wrr_pick_lands(filtered: Seq<int>, weights: Option<Seq<u64>>, point: int)
    requires
        0 <= point < spec_filtered_weight_sum(filtered, weights),
    ensures
        0 <= spec_wrr_pick(filtered, weights, point) < filtered.len(),
    decreases filtered.len(),
{
    if filtered.len() > 0 && point >= spec_weight_of(weights, filtered[0]) {
        lemma_wrr_pick_lands(
            filtered.drop_first(),
            weights,
            point - spec_weight_of(weights, filtered[0]),
        );
    }
}

/// Without a weight vector the filtered sum is the filtered count.
pub proof fn lemma_filtered_sum_unweighted(filtered: Seq<int>)
    ensures
        spec_filtered_weight_sum(filtered, None) == filtered.len(),
    decreases filtered.len(),
{
    if filtered.len() > 0 {
        lemma_filtered_sum_unweighted(filtered.drop_first());
    }
}

/// When every target is healthy the filter keeps every index in order.
pub proof fn lemma_all_healthy_identity(n: nat, health: Option<Seq<bool>>, i: nat)
    requires
        i <= n,
        forall|t: int| 0 <= t < n ==> spec_healthy(health, t),
    ensures
        healthy_indices_from(n, health, i) == Seq::new((n - i) as nat, |k: int| i + k),
    decreases n - i,
{
    if i < n {
        lemma_all_healthy_identity(n, health, i + 1);
        assert(healthy_indices_from(n, health, i) =~= Seq::new((n - i) as nat, |k: int| i + k));
    } else {
        assert(healthy_indices_from(n, health, i) =~= Seq::new((n - i) as nat, |k: int| i + k));
    }
}

/// The filtered sum over every index, from `i` on, is the weight sum of
/// the whole vector beyond its first `i` entries.
pub proof fn lemma_filtered_sum_all(w: Seq<u64>, i: int)
    requires
        0 <= i <= w.len(),
    ensures
        spec_filtered_weight_sum(
            Seq::new((w.len() - i) as nat, |k: int| i + k),
            Some(w),
        ) == spec_weight_sum(w) - spec_weight_sum(w.take(i)),
    decreases w.len() - i,
{
    let ident = Seq::new((w.len() - i) as nat, |k: int| i + k);
    if i == w.len() {
        assert(w.take(i) =~= w);
    } else {
        lemma_filtered_sum_all(w, i + 1);
        assert(ident.drop_first() =~= Seq::new((w.len() - (i + 1)) as nat, |k: int| i + 1 + k));
        assert(w.take(i + 1).drop_last() =~= w.take(i));
    }
}

/// Everything one selection promises, over plain values: membership and
/// health of any choice, nothing from an empty filtered list, and the
/// per-strategy characterization of `select_target`'s result.
pub open spec fn spec_selection(
    strategy: BalanceStrategy,
    targets: Seq<String>,
    in_flight: Seq<u64>,
    requests: Seq<u64>,
    max_requests: Option<u64>,
    scores: Option<Seq<Option<u64>>>,
    weights: Option<Seq<u64>>,
    health: Option<Seq<bool>>,
    client_ip: Option<Seq<char>>,
    r: Option<String>,
) -> bool {
    let n = targets.len() as int;
    let filtered = spec_filtered(n as nat, health);
    &&& (match r {
        Some(t) => exists|i: int|
            0 <= i < n && t@ == (#[trigger] targets[i])@ && (!(strategy is IPHash)
                ==> spec_healthy(health, i)),
        None => true,
    })
    &&& (filtered.len() == 0 ==> r is None)
    &&& (strategy is RoundRobin ==> (match r {
        Some(t) => filtered.len() > 0 && t@ == targets[filtered[0]]@,
        None => filtered.len() == 0,
    }))
    &&& (strategy is Random ==> (r is Some <==> filtered.len() > 0))
    &&& (strategy is LeastConnections ==> (match r {
        Some(t) => exists|m: int|
            0 <= m < filtered.len() && t@ == (#[trigger] targets[filtered[m]])@ && (forall|j: int|
                0 <= j < filtered.len() ==> in_flight[filtered[m]]
                    <= in_flight[#[trigger] filtered[j]]) && (forall|j: int|
                0 <= j < m ==> in_flight[#[trigger] filtered[j]] > in_flight[filtered[m]]),
        None => filtered.len() == 0,
    }))
    &&& (strategy is RateLimiting ==> (match r {
        Some(t) => exists|m: int|
            0 <= m < filtered.len() && t@ == (#[trigger] targets[filtered[m]])@ && spec_admissible(
                requests[filtered[m]],
                max_requests,
            ) && (forall|j: int|
                0 <= j < m ==> !spec_admissible(requests[#[trigger] filtered[j]], max_requests)),
        None => forall|j: int|
            0 <= j < filtered.len() ==> !spec_admissible(
                requests[#[trigger] filtered[j]],
                max_requests,
            ),
    }))
    &&& (strategy is DynamicRateLimiting ==> (match r {
        Some(t) => exists|m: int|
            0 <= m < filtered.len() && t@ == (#[trigger] targets[filtered[m]])@
                && spec_dynamic_admissible(in_flight[filtered[m]]) && (forall|j: int|
                0 <= j < m ==> !spec_dynamic_admissible(in_flight[#[trigger] filtered[j]])),
        None => forall|j: int|
            0 <= j < filtered.len() ==> !spec_dynamic_admissible(
                in_flight[#[trigger] filtered[j]],
            ),
    }))
    &&& (strategy is ResourceBased ==> (match scores {
        None => r is None,
        Some(sc) => (match r {
            Some(t) => exists|m: int|
                0 <= m < sc.len() && m < filtered.len() && t@ == (
                #[trigger] targets[filtered[m]])@ && sc[m] is Some && (forall|j: int|
                    0 <= j < sc.len() && (#[trigger] sc[j]) is Some ==> sc[m].unwrap()
                        <= sc[j].unwrap()) && (forall|j: int|
                    0 <= j < m ==> (#[trigger] sc[j]) is None || sc[j].unwrap() > sc[m].unwrap()),
            None => filtered.len() == 0 || (forall|j: int|
                0 <= j < sc.len() ==> (#[trigger] sc[j]) is None) || (exists|m: int|
                0 <= m < sc.len() && filtered.len() <= m && (#[trigger] sc[m]) is Some && (forall|
                    j: int,
                |
                    0 <= j < sc.len() && (#[trigger] sc[j]) is Some ==> sc[m].unwrap()
                        <= sc[j].unwrap()) && (forall|j: int|
                    0 <= j < m ==> (#[trigger] sc[j]) is None || sc[j].unwrap() > sc[m].unwrap())),
        }),
    }))
    &&& (strategy is WeightedRoundRobin && filtered.len() > 0 ==> ({
        &&& (exists|p: int|
            0 <= p < spec_wrr_total(weights, filtered.len() as int)
                && #[trigger] spec_wrr_outcome(filtered, weights, p, targets, r))
        &&& (weights is None ==> r is Some)
        &&& ((match health {
            None => true,
            Some(hs) => forall|i: int| 0 <= i < hs.len() ==> #[trigger] hs[i],
        }) ==> r is Some)
        &&& (n == 1 ==> r == Some(targets[0]))
    }))
    &&& (strategy is IPHash ==> (match client_ip {
        None => r is None,
        Some(ip) => (match r {
            Some(t) => filtered.len() > 0 && t@ == targets[(xxhash64_of(ip) as int % n)]@,
            None => filtered.len() == 0,
        }),
    }))
}

impl BalanceStrategy {
    pub fn from_str(strategy: &str) -> (r: Self)
        ensures
            r == spec_strategy_from(strategy@),
    {
        proof {
            reveal_strlit("roundrobin");
            reveal_strlit("random");
            reveal_strlit("leastconnections");
            reveal_strlit("ratelimiting");
            reveal_strlit("resourcebased");
            reveal_strlit("weightedroundrobin");
            reveal_strlit("dynamicratelimiting");
            reveal_strlit("iphash");
            assert("roundrobin"@.len() == 10);
            assert("random"@.len() == 6 && "random"@[0] == 'r');
            assert("leastconnections"@.len() == 16);
            assert("ratelimiting"@.len() == 12);
            assert("resourcebased"@.len() == 13);
            assert("weightedroundrobin"@.len() == 18);
            assert("dynamicratelimiting"@.len() == 19);
            assert("iphash"@.len() == 6 && "iphash"@[0] == 'i');
        }
        let s = strategy.to_owned();
        if s == "roundrobin".to_owned() {
            BalanceStrategy::RoundRobin
        } else if s == "random".to_owned() {
            BalanceStrategy::Random
        } else if s == "leastconnections".to_owned() {
            BalanceStrategy::LeastConnections
        } else if s == "ratelimiting".to_owned() {
            BalanceStrategy::RateLimiting
        } else if s == "resourcebased".to_owned() {
            BalanceStrategy::ResourceBased
        } else if s == "weightedroundrobin".to_owned() {
            BalanceStrategy::WeightedRoundRobin
        } else if s == "dynamicratelimiting".to_owned() {
            BalanceStrategy::DynamicRateLimiting
        } else if s == "iphash".to_owned() {
            BalanceStrategy::IPHash
        } else {
            BalanceStrategy::RoundRobin
        }
    }

    /// The healthy targets' indices, in list order.
    fn filter_addresses(target_addrs: &Vec<String>, health_statuses: Option<&Vec<bool>>) -> (r:
        Vec<usize>)
        requires
            match health_statuses {
                Some(h) => h@.len() == target_addrs@.len(),
                None => true,
            },
        ensures
            r@.map_values(|u: usize| u as int) == spec_filtered(
                target_addrs@.len(),
                spec_health_view(health_statuses),
            ),
    {
        let ghost h = spec_health_view(health_statuses);
        let n = target_addrs.len();
        let mut r: Vec<usize> = Vec::new();
        let mut i: usize = 0;
        while i < n
            invariant
                i <= n,
                n == target_addrs@.len(),
                match health_statuses {
                    Some(hs) => hs@.len() == n && h == Some(hs@),
                    None => h is None,
                },
                forall|j: int| 0 <= j < r@.len() ==> (#[trigger] r@[j]) < n,
                spec_filtered(n as nat, h) == r@.map_values(|u: usize| u as int)
                    + healthy_indices_from(n as nat, h, i as nat),
            decreases n - i,
        {
            let healthy = match health_statuses {
                Some(hs) => hs[i],
                None => true,
            };
            let ghost before = r@;
            if healthy {
                r.push(i);
                proof {
                    assert(r@.map_values(|u: usize| u as int) =~= before.map_values(
                        |u: usize| u as int,
                    ) + seq![i as int]);
                    assert(before.map_values(|u: usize| u as int) + (seq![i as int]
                        + healthy_indices_from(n as nat, h, (i + 1) as nat)) =~= (before.map_values(
                        |u: usize| u as int,
                    ) + seq![i as int]) + healthy_indices_from(n as nat, h, (i + 1) as nat));
                }
            }
            i += 1;
        }
        proof {
            assert(spec_filtered(n as nat, h) =~= r@.map_values(|u: usize| u as int));
        }
        r
    }

    /// Chooses a target for one dispatch, or none. Health filtering comes
    /// first; every strategy but IP-hash picks among the healthy targets,
    /// and IP-hash indexes the unfiltered list to keep client affinity.
    /// The deterministic weighted walk under a given drawn point: each
    /// filtered target's weight (one when no weights are configured) is
    /// subtracted from the point in order, and the first target whose
    /// weight exceeds what is left is returned; a point that survives the
    /// whole list yields nothing.
    pub fn weighted_walk(
        target_addrs: &Vec<String>,
        filtered: &Vec<usize>,
        target_weights: Option<&Vec<u64>>,
        point: u64,
    ) -> (r: Option<String>)
        requires
            forall|j: int|
                0 <= j < filtered@.len() ==> (#[trigger] filtered@[j]) < target_addrs@.len(),
            match target_weights {
                Some(w) => w@.len() == target_addrs@.len(),
                None => true,
            },
        ensures
            spec_wrr_outcome(
                filtered@.map_values(|u: usize| u as int),
                match target_weights {
                    Some(w) => Some(w@),
                    None => None::<Seq<u64>>,
                },
                point as int,
                target_addrs@,
                r,
            ),
    {
        let ghost fseq = filtered@.map_values(|u: usize| u as int);
        let ghost wview: Option<Seq<u64>> = match target_weights {
            Some(w) => Some(w@),
            None => None,
        };
        let ghost point0 = point as int;
        let flen = filtered.len();
        let mut remaining = point;
        let mut j: usize = 0;
        proof {
            assert(fseq.skip(0) =~= fseq);
            assert(forall|jj: int|
                0 <= jj < filtered@.len() ==> #[trigger] fseq[jj] == filtered@[jj] as int);
        }
        while j < flen
            invariant
                flen == filtered@.len(),
                j <= flen,
                fseq == filtered@.map_values(|u: usize| u as int),
                forall|jj: int|
                    0 <= jj < filtered@.len() ==> (#[trigger] filtered@[jj])
                        < target_addrs@.len(),
                forall|jj: int|
                    0 <= jj < filtered@.len() ==> #[trigger] fseq[jj] == filtered@[jj] as int,
                wview == (match target_weights {
                    Some(w) => Some(w@),
                    None => None::<Seq<u64>>,
                }),
                point0 == point as int,
                match target_weights {
                    Some(w) => w@.len() == target_addrs@.len(),
                    None => true,
                },
                spec_wrr_pick(fseq, wview, point0) == (if spec_wrr_pick(
                    fseq.skip(j as int),
                    wview,
                    remaining as int,
                ) == -1 {
                    -1int
                } else {
                    spec_wrr_pick(fseq.skip(j as int), wview, remaining as int) + j
                }),
            decreases flen - j,
        {
            let idx = filtered[j];
            let weight: u64 = match target_weights {
                Some(weights) => weights[idx],
                None => 1,
            };
            proof {
                assert(fseq.skip(j as int)[0] == fseq[j as int]);
                assert(spec_weight_of(wview, fseq.skip(j as int)[0]) == weight as int);
                assert(fseq.skip(j as int).drop_first() =~= fseq.skip(j as int + 1));
            }
            if remaining < weight {
                let result = Some(target_addrs[idx].clone());
                proof {
                    assert(spec_wrr_pick(fseq.skip(j as int), wview, remaining as int) == 0);
                    assert(spec_wrr_pick(fseq, wview, point0) == j as int);
                    assert(spec_wrr_outcome(
                        filtered@.map_values(|u: usize| u as int),
                        match target_weights {
                            Some(w) => Some(w@),
                            None => None::<Seq<u64>>,
                        },
                        point0,
                        target_addrs@,
                        result,
                    ));
                }
                return result;
            }
            proof {
                let rest = spec_wrr_pick(fseq.skip(j as int + 1), wview, remaining as int - weight as int);
                lemma_wrr_pick_bounds(fseq.skip(j as int + 1), wview, remaining as int - weight as int);
                assert(spec_wrr_pick(fseq.skip(j as int), wview, remaining as int) == (if rest == -1 {
                    -1int
                } else {
                    rest + 1
                }));
            }
            remaining = remaining - weight;
            j += 1;
        }
        proof {
            assert(fseq.skip(flen as int) =~= Seq::<int>::empty());
            assert(spec_wrr_pick(fseq, wview, point0) == -1);
            assert(spec_wrr_outcome(
                filtered@.map_values(|u: usize| u as int),
                match target_weights {
                    Some(w) => Some(w@),
                    None => None::<Seq<u64>>,
                },
                point0,
                target_addrs@,
                None::<String>,
            ));
        }
        None
    }

    /// Weighted round-robin over the healthy targets: draws a point below
    /// the summed weights (the filtered count when no weights are
    /// configured) and walks the filtered list with it. With no weight
    /// vector, or with every target healthy, some target is always
    /// returned; a single-target list always yields its target.
    #[verifier::rlimit(100)]
    #[verifier::spinoff_prover]
    fn select_weighted(
        target_addrs: &Vec<String>,
        filtered: &Vec<usize>,
        target_weights: Option<&Vec<u64>>,
        health_statuses: Option<&Vec<bool>>,
    ) -> (r: Option<String>)
        requires
            filtered@.map_values(|u: usize| u as int) == spec_filtered(
                target_addrs@.len(),
                spec_health_view(health_statuses),
            ),
            filtered@.len() > 0,
            match target_weights {
                Some(w) => w@.len() == target_addrs@.len() && (forall|i: int|
                    0 <= i < w@.len() ==> 1 <= #[trigger] w@[i]) && spec_weight_sum(w@)
                    <= u64::MAX,
                None => true,
            },
            match health_statuses {
                Some(hs) => hs@.len() == target_addrs@.len(),
                None => true,
            },
        ensures
            exists|p: int|
                0 <= p < spec_wrr_total(
                    spec_weights_view(target_weights),
                    spec_filtered(
                        target_addrs@.len(),
                        spec_health_view(health_statuses),
                    ).len() as int,
                ) && #[trigger] spec_wrr_outcome(
                    spec_filtered(target_addrs@.len(), spec_health_view(health_statuses)),
                    spec_weights_view(target_weights),
                    p,
                    target_addrs@,
                    r,
                ),
            target_weights is None ==> r is Some,
            (match health_statuses {
                None => true,
                Some(hs) => forall|i: int| 0 <= i < hs@.len() ==> #[trigger] hs@[i],
            }) ==> r is Some,
            target_addrs@.len() == 1 ==> r == Some(target_addrs@[0]),
            match r {
                Some(t) => exists|i: int|
                    0 <= i < target_addrs@.len() && t@ == (#[trigger] target_addrs@[i])@
                        && spec_healthy(spec_health_view(health_statuses), i),
                None => true,
            },
    {
        let ghost n = target_addrs@.len() as int;
        let ghost h = spec_health_view(health_statuses);
        let ghost fs = spec_filtered(n as nat, h);
        let flen = filtered.len();
        proof {
            lemma_filtered_facts(filtered@, n as nat, h);
        }
                let total: u64 = match target_weights {
                    Some(weights) => {
                        let wlen = weights.len();
                        let mut sum: u64 = 0;
                        let mut j: usize = 0;
                        proof {
                            lemma_weight_sum_prefix(weights@, 0);
                        }
                        while j < wlen
                            invariant
                                wlen == weights@.len(),
                                j <= wlen,
                                sum == spec_weight_sum(weights@.take(j as int)),
                                spec_weight_sum(weights@) <= u64::MAX,
                                forall|i: int| 0 <= i < weights@.len() ==> 1 <= #[trigger] weights@[i],
                            decreases wlen - j,
                        {
                            proof {
                                assert(weights@.take(j as int + 1).drop_last() =~= weights@.take(
                                    j as int,
                                ));
                                lemma_weight_sum_prefix(weights@, j as int + 1);
                            }
                            sum = sum + weights[j];
                            j += 1;
                        }
                        proof {
                            assert(weights@.take(wlen as int) =~= weights@);
                        }
                        sum
                    },
                    None => flen as u64,
                };
                if total == 0 {
                    proof {
                        match target_weights {
                            Some(w) => {
                                lemma_weight_sum_lower(w@);
                            },
                            None => {},
                        }
                        assert(false);
                    }
                    return None;
                }
                let point = random_below(total);
                let ghost point0 = point as int;
                let ghost wview: Option<Seq<u64>> = match target_weights {
                    Some(w) => Some(w@),
                    None => None,
                };
                let result = BalanceStrategy::weighted_walk(
                    target_addrs,
                    &filtered,
                    target_weights,
                    point,
                );
                proof {
                    lemma_filtered_facts(filtered@, n as nat, h);
                    assert(fs == filtered@.map_values(|u: usize| u as int));
                    assert(spec_wrr_outcome(
                        spec_filtered(target_addrs@.len(), spec_health_view(health_statuses)),
                        spec_weights_view(target_weights),
                        point0,
                        target_addrs@,
                        result,
                    ));
                    assert(0 <= point0 < spec_wrr_total(
                        spec_weights_view(target_weights),
                        spec_filtered(
                            target_addrs@.len(),
                            spec_health_view(health_statuses),
                        ).len() as int,
                    ));
                    assert(target_weights is None ==> result is Some) by {
                        if target_weights is None {
                            lemma_filtered_sum_unweighted(fs);
                            lemma_wrr_pick_lands(fs, wview, point0);
                        }
                    }
                    assert((match health_statuses {
                        None => true,
                        Some(hs) => forall|i: int| 0 <= i < hs@.len() ==> #[trigger] hs@[i],
                    }) ==> result is Some) by {
                        if match health_statuses {
                            None => true,
                            Some(hs) => forall|i: int| 0 <= i < hs@.len() ==> #[trigger] hs@[i],
                        } {
                            match target_weights {
                                Some(w) => {
                                    assert(forall|t: int| 0 <= t < n ==> spec_healthy(h, t));
                                    lemma_all_healthy_identity(n as nat, h, 0);
                                    assert(w@.take(0) =~= Seq::<u64>::empty());
                                    lemma_filtered_sum_all(w@, 0);
                                    assert(spec_filtered_weight_sum(fs, wview) == spec_weight_sum(
                                        w@,
                                    ));
                                    lemma_wrr_pick_lands(fs, wview, point0);
                                },
                                None => {
                                    lemma_filtered_sum_unweighted(fs);
                                    lemma_wrr_pick_lands(fs, wview, point0);
                                },
                            }
                        }
                    }
                    assert(n == 1 ==> result == Some(target_addrs@[0])) by {
                        if n == 1 {
                            lemma_filtered_facts(filtered@, n as nat, h);
                            assert(healthy_indices_from(n as nat, h, 1) =~= Seq::<int>::empty());
                            assert(spec_filtered(n as nat, h).len() <= 1);
                            assert(flen == 1);
                            assert(fs[0] == 0);
                            match target_weights {
                                Some(w) => {
                                    assert(w@.drop_last() =~= Seq::<u64>::empty());
                                    assert(spec_weight_sum(Seq::<u64>::empty()) == 0);
                                    assert(spec_weight_sum(w@) == w@[0]);
                                    assert(fs.drop_first() =~= Seq::<int>::empty());
                                    assert(spec_filtered_weight_sum(Seq::<int>::empty(), wview)
                                        == 0);
                                    assert(spec_filtered_weight_sum(fs, wview) == spec_weight_of(
                                        wview,
                                        fs[0],
                                    ));
                                    lemma_wrr_pick_lands(fs, wview, point0);
                                },
                                None => {
                                    lemma_filtered_sum_unweighted(fs);
                                    lemma_wrr_pick_lands(fs, wview, point0);
                                },
                            }
                            assert(spec_wrr_pick(fs, wview, point0) == 0);
                        }
                    }
                    assert(match result {
                        Some(t) => exists|i: int|
                            0 <= i < n && t@ == (#[trigger] target_addrs@[i])@ && spec_healthy(
                                h,
                                i,
                            ),
                        None => true,
                    }) by {
                        let pick = spec_wrr_pick(fs, wview, point0);
                        lemma_wrr_pick_bounds(fs, wview, point0);
                        lemma_filtered_facts(filtered@, n as nat, h);
                        if pick != -1 {
                            assert(result == Some(target_addrs@[fs[pick]]));
                            assert(0 <= fs[pick] < n && spec_healthy(h, fs[pick]));
                            assert(target_addrs@[fs[pick]]@ == (
                            #[trigger] target_addrs@[fs[pick]])@);
                        } else {
                            assert(result is None);
                        }
                    }
                }
                return result;
    }

    #[verifier::rlimit(100)]
    #[verifier::spinoff_prover]
    pub fn select_target(
        &self,
        target_addrs: &Vec<String>,
        connection_counts: &Vec<u64>,
        request_counts: &Vec<u64>,
        max_requests_per_target: Option<u64>,
        resource_scores: Option<&Vec<Option<u64>>>,
        target_weights: Option<&Vec<u64>>,
        health_statuses: Option<&Vec<bool>>,
        client_ip: Option<&String>,
    ) -> (r: Option<String>)
        requires
            connection_counts@.len() == target_addrs@.len(),
            request_counts@.len() == target_addrs@.len(),
            match health_statuses {
                Some(h) => h@.len() == target_addrs@.len(),
                None => true,
            },
            match target_weights {
                Some(w) => w@.len() == target_addrs@.len() && forall|i: int|
                    0 <= i < w@.len() ==> 1 <= #[trigger] w@[i],
                None => true,
            },
            *self is WeightedRoundRobin ==> (match target_weights {
                Some(w) => spec_weight_sum(w@) <= u64::MAX,
                None => true,
            }),
        ensures
            spec_selection(
                *self,
                target_addrs@,
                connection_counts@,
                request_counts@,
                max_requests_per_target,
                spec_scores_view(resource_scores),
                spec_weights_view(target_weights),
                spec_health_view(health_statuses),
                spec_ip_view(client_ip),
                r,
            ),
    {
        let filtered = BalanceStrategy::filter_addresses(target_addrs, health_statuses);
        let ghost n = target_addrs@.len() as int;
        let ghost h = spec_health_view(health_statuses);
        let ghost fs = spec_filtered(n as nat, h);
        proof {
            lemma_healthy_indices(n as nat, h, 0);
            assert(fs == filtered@.map_values(|u: usize| u as int));
            lemma_filtered_facts(filtered@, n as nat, h);
        }
        let flen = filtered.len();
        if flen == 0 {
            return None;
        }
        match *self {
            BalanceStrategy::RoundRobin => {
                let idx = filtered[0];
                proof {
                    assert(spec_filtered(n as nat, h)[0] == filtered@[0] as int);
                    assert(target_addrs@[spec_filtered(n as nat, h)[0]] == target_addrs@[idx as int]);
                }
                return Some(target_addrs[idx].clone());
            },
            BalanceStrategy::Random => {
                let pick = random_below(flen as u64) as usize;
                let idx = filtered[pick];
                proof {
                    assert(spec_filtered(n as nat, h)[pick as int] == filtered@[pick as int] as int);
                    assert(target_addrs@[spec_filtered(n as nat, h)[pick as int]] == target_addrs@[idx as int]);
                }
                return Some(target_addrs[idx].clone());
            },
            BalanceStrategy::LeastConnections => {
                let mut m: usize = 0;
                let mut j: usize = 1;
                while j < flen
                    invariant
                        flen == filtered@.len(),
                        m < j <= flen,
                        n == target_addrs@.len(),
                        h == spec_health_view(health_statuses),
                        connection_counts@.len() == target_addrs@.len(),
                        filtered@.map_values(|u: usize| u as int) == spec_filtered(
                            n as nat,
                            h,
                        ),
                        forall|jj: int|
                            0 <= jj < filtered@.len() ==> (#[trigger] filtered@[jj])
                                < connection_counts@.len(),
                        forall|jj: int|
                            0 <= jj < j ==> connection_counts@[filtered@[m as int] as int]
                                <= connection_counts@[(#[trigger] filtered@[jj]) as int],
                        forall|jj: int|
                            0 <= jj < m ==> connection_counts@[(#[trigger] filtered@[jj]) as int]
                                > connection_counts@[filtered@[m as int] as int],
                    decreases flen - j,
                {
                    if connection_counts[filtered[j]] < connection_counts[filtered[m]] {
                        m = j;
                    }
                    j += 1;
                }
                proof {
                    lemma_filtered_facts(filtered@, n as nat, h);
                }
                let idx = filtered[m];
                proof {
                    assert(spec_filtered(n as nat, h)[m as int] == filtered@[m as int] as int);
                    assert(target_addrs@[spec_filtered(n as nat, h)[m as int]] == target_addrs@[idx as int]);
                    assert forall|jj: int|
                        0 <= jj < spec_filtered(n as nat, h).len() implies connection_counts@[spec_filtered(
                        n as nat,
                        h,
                    )[m as int]] <= connection_counts@[#[trigger] spec_filtered(n as nat, h)[jj]] by {
                        assert(spec_filtered(n as nat, h)[jj] == filtered@[jj] as int);
                    }
                    assert forall|jj: int|
                        0 <= jj < m implies connection_counts@[#[trigger] spec_filtered(n as nat, h)[jj]]
                        > connection_counts@[spec_filtered(n as nat, h)[m as int]] by {
                        assert(spec_filtered(n as nat, h)[jj] == filtered@[jj] as int);
                    }
                }
                return Some(target_addrs[idx].clone());
            },
            BalanceStrategy::RateLimiting => {
                let mut j: usize = 0;
                while j < flen
                    invariant
                        *self is RateLimiting,
                        flen == filtered@.len(),
                        0 < flen,
                        j <= flen,
                        n == target_addrs@.len(),
                        request_counts@.len() == target_addrs@.len(),
                        h == spec_health_view(health_statuses),
                        filtered@.map_values(|u: usize| u as int) == spec_filtered(
                            n as nat,
                            h,
                        ),
                        forall|jj: int|
                            0 <= jj < filtered@.len() ==> (#[trigger] filtered@[jj])
                                < request_counts@.len(),
                        forall|jj: int|
                            0 <= jj < j ==> !spec_admissible(
                                request_counts@[(#[trigger] filtered@[jj]) as int],
                                max_requests_per_target,
                            ),
                    decreases flen - j,
                {
                    let count = request_counts[filtered[j]];
                    let admissible = match max_requests_per_target {
                        Some(m) => count < m,
                        None => true,
                    };
                    if admissible {
                        let idx = filtered[j];
                        proof {
                            lemma_filtered_facts(filtered@, n as nat, h);
                            assert(spec_filtered(n as nat, h)[j as int] == filtered@[j as int] as int);
                            assert(target_addrs@[spec_filtered(n as nat, h)[j as int]]
                                == target_addrs@[idx as int]);
                            assert forall|jj: int|
                                0 <= jj < j implies !spec_admissible(
                                request_counts@[#[trigger] spec_filtered(n as nat, h)[jj]],
                                max_requests_per_target,
                            ) by {
                                assert(spec_filtered(n as nat, h)[jj] == filtered@[jj] as int);
                            }
                        }
                        return Some(target_addrs[idx].clone());
                    }
                    j += 1;
                }
                proof {
                    lemma_filtered_facts(filtered@, n as nat, h);
                    assert forall|jj: int|
                        0 <= jj < spec_filtered(n as nat, h).len() implies !spec_admissible(
                        request_counts@[#[trigger] spec_filtered(n as nat, h)[jj]],
                        max_requests_per_target,
                    ) by {
                        assert(spec_filtered(n as nat, h)[jj] == filtered@[jj] as int);
                    }
                }
                return None;
            },
            BalanceStrategy::DynamicRateLimiting => {
                let mut j: usize = 0;
                while j < flen
                    invariant
                        *self is DynamicRateLimiting,
                        flen == filtered@.len(),
                        0 < flen,
                        j <= flen,
                        n == target_addrs@.len(),
                        connection_counts@.len() == target_addrs@.len(),
                        h == spec_health_view(health_statuses),
                        filtered@.map_values(|u: usize| u as int) == spec_filtered(
                            n as nat,
                            h,
                        ),
                        forall|jj: int|
                            0 <= jj < filtered@.len() ==> (#[trigger] filtered@[jj])
                                < connection_counts@.len(),
                        forall|jj: int|
                            0 <= jj < j ==> !spec_dynamic_admissible(
                                connection_counts@[(#[trigger] filtered@[jj]) as int],
                            ),
                    decreases flen - j,
                {
                    let count = connection_counts[filtered[j]];
                    let limit = calculate_dynamic_limit(count);
                    if count < limit {
                        let idx = filtered[j];
                        proof {
                            lemma_filtered_facts(filtered@, n as nat, h);
                            assert(spec_filtered(n as nat, h)[j as int] == filtered@[j as int] as int);
                            assert(target_addrs@[spec_filtered(n as nat, h)[j as int]]
                                == target_addrs@[idx as int]);
                            assert forall|jj: int|
                                0 <= jj < j implies !spec_dynamic_admissible(
                                connection_counts@[#[trigger] spec_filtered(n as nat, h)[jj]],
                            ) by {
                                assert(spec_filtered(n as nat, h)[jj] == filtered@[jj] as int);
                            }
                        }
                        return Some(target_addrs[idx].clone());
                    }
                    j += 1;
                }
                proof {
                    lemma_filtered_facts(filtered@, n as nat, h);
                    assert forall|jj: int|
                        0 <= jj < spec_filtered(n as nat, h).len() implies !spec_dynamic_admissible(
                        connection_counts@[#[trigger] spec_filtered(n as nat, h)[jj]],
                    ) by {
                        assert(spec_filtered(n as nat, h)[jj] == filtered@[jj] as int);
                    }
                }
                return None;
            },
            BalanceStrategy::ResourceBased => {
                match resource_scores {
                    None => {
                        return None;
                    },
                    Some(scores) => {
                        let slen = scores.len();
                        let mut best: usize = 0;
                        let mut have_best = false;
                        let mut j: usize = 0;
                        while j < slen
                            invariant
                                slen == scores@.len(),
                                j <= slen,
                                have_best ==> best < j && scores@[best as int] is Some,
                                have_best ==> forall|jj: int|
                                    0 <= jj < j && (#[trigger] scores@[jj]) is Some
                                        ==> scores@[best as int].unwrap() <= scores@[jj].unwrap(),
                                have_best ==> forall|jj: int|
                                    0 <= jj < best ==> (#[trigger] scores@[jj]) is None
                                        || scores@[jj].unwrap() > scores@[best as int].unwrap(),
                                !have_best ==> forall|jj: int|
                                    0 <= jj < j ==> (#[trigger] scores@[jj]) is None,
                            decreases slen - j,
                        {
                            match scores[j] {
                                Some(score) => {
                                    if !have_best {
                                        best = j;
                                        have_best = true;
                                    } else {
                                        let best_score = match scores[best] {
                                            Some(b) => b,
                                            None => 0,
                                        };
                                        if score < best_score {
                                            best = j;
                                        }
                                    }
                                },
                                None => {},
                            }
                            j += 1;
                        }
                        if !have_best {
                            return None;
                        }
                        if best < flen {
                            proof {
                                lemma_filtered_facts(filtered@, n as nat, h);
                                assert(spec_filtered(n as nat, h)[best as int] == filtered@[best as int] as int);
                                assert(target_addrs@[spec_filtered(n as nat, h)[best as int]]
                                    == target_addrs@[filtered@[best as int] as int]);
                            }
                            let idx = filtered[best];
                            return Some(target_addrs[idx].clone());
                        } else {
                            return None;
                        }
                    },
                }
            },
            BalanceStrategy::WeightedRoundRobin => {
                return BalanceStrategy::select_weighted(
                    target_addrs,
                    &filtered,
                    target_weights,
                    health_statuses,
                );
            },
            BalanceStrategy::IPHash => {
                match client_ip {
                    None => {
                        return None;
                    },
                    Some(ip) => {
                        let hash = xxhash64(ip.as_str());
                        let alen = target_addrs.len();
                        let idx = (hash % alen as u64) as usize;
                        proof {
                            assert(target_addrs@[xxhash64_of(ip@) as int % n]
                                == target_addrs@[idx as int]);
                        }
                        return Some(target_addrs[idx].clone());
                    },
                }
            },
        }
    }
}

/// Whether a target's cumulative request count admits one more request
/// under an optional ceiling.
pub open spec fn spec_admissible(count: u64, ceiling: Option<u64>) -> bool {
    match ceiling {
        Some(m) => count < m,
        None => true,
    }
}

/// Whether a target's in-flight count admits one more connection under the
/// dynamic ceiling.
pub open spec fn spec_dynamic_admissible(count: u64) -> bool {
    count < (if count > 100 {
        50u64
    } else {
        100u64
    })
}

/// The health vector as an optional sequence.
pub open spec fn spec_health_view(health: Option<&Vec<bool>>) -> Option<Seq<bool>> {
    match health {
        None => None,
        Some(h) => Some(h@),
    }
}

/// The metric scores as an optional sequence.
pub open spec fn spec_scores_view(scores: Option<&Vec<Option<u64>>>) -> Option<Seq<Option<u64>>> {
    match scores {
        None => None,
        Some(s) => Some(s@),
    }
}

/// The client address as an optional character sequence.
pub open spec fn spec_ip_view(ip: Option<&String>) -> Option<Seq<char>> {
    match ip {
        None => None,
        Some(s) => Some(s@),
    }
}

/// The weight vector as an optional sequence.
pub open spec fn spec_weights_view(weights: Option<&Vec<u64>>) -> Option<Seq<u64>> {
    match weights {
        None => None,
        Some(w) => Some(w@),
    }
}

/// The span the weighted draw is taken from: the summed weights, or the
/// filtered count when no weights are configured.
pub open spec fn spec_wrr_total(weights: Option<Seq<u64>>, filtered_len: int) -> int {
    match weights {
        Some(w) => spec_weight_sum(w),
        None => filtered_len,
    }
}

/// A vector of positive weights sums to at least its length.
pub proof fn lemma_weight_sum_lower(weights: Seq<u64>)
    requires
        forall|i: int| 0 <= i < weights.len() ==> 1 <= #[trigger] weights[i],
    ensures
        spec_weight_sum(weights) >= weights.len(),
    decreases weights.len(),
{
    if weights.len() > 0 {
        assert(forall|i: int|
            0 <= i < weights.drop_last().len() ==> 1 <= #[trigger] weights.drop_last()[i]);
        lemma_weight_sum_lower(weights.drop_last());
    }
}

/// A prefix sum of weights never exceeds the whole sum.
pub proof fn lemma_weight_sum_prefix(weights: Seq<u64>, i: int)
    requires
        0 <= i <= weights.len(),
    ensures
        0 <= spec_weight_sum(weights.take(i)) <= spec_weight_sum(weights),
    decreases weights.len() - i,
{
    if i == weights.len() {
        assert(weights.take(i) =~= weights);
        lemma_weight_sum_nonneg(weights);
    } else {
        lemma_weight_sum_prefix(weights, i + 1);
        assert(weights.take(i + 1).drop_last() =~= weights.take(i));
        lemma_weight_sum_nonneg(weights.take(i));
    }
}

pub proof fn lemma_weight_sum_nonneg(weights: Seq<u64>)
    ensures
        spec_weight_sum(weights) >= 0,
    decreases weights.len(),
{
    if weights.len() > 0 {
        lemma_weight_sum_nonneg(weights.drop_last());
    }
}

} // verus!
