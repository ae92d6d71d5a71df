//! `memory.recall` and its read-ahead predictor. After serving a recall
//! the loop speculatively fetches the same query again (the last-query
//! predictor), so the next identical recall is served from that
//! speculation. Each speculation is resolved once - a hit when the next
//! recall asks for the same `k`, a miss otherwise, or a miss when the
//! mission closes first - and the predictor retires itself for good once
//! it has enough samples and its hit rate falls below the crossover.
//! The memory store and the event log are outside; this module keeps the
//! books.
use vstd::prelude::*;
use crate::json::{as_u64, get, get_u64, Json};

verus! {

/// The `k` of a recall: the requested count clamped to `1..=50`, or 5
/// when the arguments name none.
pub open spec fn recall_k_spec(args: Json) -> usize {
    match as_u64(get(args, "k"@)) {
        Some(k) => if k < 1 {
            1
        } else if k > 50 {
            50
        } else {
            k as usize
        },
        None => 5,
    }
}

pub fn recall_k(args: &Json) -> (r: usize)
    ensures
        r == recall_k_spec(*args),
        1 <= r <= 50,
{
    match get_u64(args, "k") {
        Some(k) => if k < 1 {
            1
        } else if k > 50 {
            50
        } else {
            k as usize
        },
        None => 5,
    }
}

/// The estimated token cost of a fetched result: its rendered length in
/// bytes over four, rounded up, at least one, saturating at `u32::MAX`.
pub open spec fn tokens_estimate_spec(rendered_len: usize) -> u32 {
    let q = (rendered_len + 3) / 4;
    if q > u32::MAX {
        u32::MAX
    } else if q < 1 {
        1
    } else {
        q as u32
    }
}

pub fn tokens_estimate(rendered_len: usize) -> (r: u32)
    ensures
        r == tokens_estimate_spec(rendered_len),
{
    let q: usize = rendered_len / 4 + if rendered_len % 4 == 0 {
        0
    } else {
        1
    };
    assert(q == (rendered_len + 3) / 4);
    if q > 4_294_967_295usize {
        4_294_967_295u32
    } else if q < 1 {
        1
    } else {
        q as u32
    }
}

/// One outstanding speculation: the `k` it fetched and its estimated
/// token cost.
#[derive(Clone, Copy, Debug, PartialEq, Eq)]
pub struct Speculation {
    pub k: usize,
    pub tokens_est: u32,
}

/// How a speculation was resolved at a recall.
#[derive(Clone, Copy, Debug, PartialEq, Eq)]
pub struct Resolution {
    /// The `k` the speculation fetched.
    pub predicted_k: usize,
    /// Whether the recall asked for exactly that `k` (its result is then
    /// served from the speculation).
    pub hit: bool,
    pub tokens_est: u32,
    /// The books after counting this resolution.
    pub hits: u32,
    pub misses: u32,
    /// Whether this resolution retired the predictor.
    pub retired: bool,
}

/// The predictor's books. `crossover_bp` is the hit-rate crossover in
/// basis points (5000 is a rate of one half).
#[derive(Clone, Copy, Debug)]
pub struct PrefetchBooks {
    pub hits: u32,
    pub misses: u32,
    pub enabled: bool,
    pub min_samples: u32,
    pub crossover_bp: u32,
    pub outstanding: Option<Speculation>,
}

/// The predictor retires when it is running, has at least `min_samples`
/// resolutions, and its hit rate `hits / (hits + misses)` is below the
/// crossover.
pub open spec fn retires(enabled: bool, hits: u32, misses: u32, min_samples: u32, crossover_bp: u32) -> bool {
    &&& enabled
    &&& hits + misses >= min_samples
    &&& hits * 10000 < crossover_bp * (hits + misses)
}

/// A recall for `k` against the books `b`: the books after it, and how
/// the outstanding speculation (if any) was resolved.
pub open spec fn resolve_spec(b: PrefetchBooks, k: usize) -> (PrefetchBooks, Option<Resolution>) {
    match b.outstanding {
        None => (b, None),
        Some(s) => {
            let hit = s.k == k;
            let hits = if hit { (b.hits + 1) as u32 } else { b.hits };
            let misses = if hit { b.misses } else { (b.misses + 1) as u32 };
            let retired = retires(b.enabled, hits, misses, b.min_samples, b.crossover_bp);
            (
                PrefetchBooks { hits, misses, enabled: b.enabled && !retired, outstanding: None, ..b },
                Some(Resolution { predicted_k: s.k, hit, tokens_est: s.tokens_est, hits, misses, retired }),
            )
        },
    }
}

/// The books after a served recall for `k`.
pub open spec fn speculate_spec(b: PrefetchBooks, k: usize, fetched_ok: bool, rendered_len: usize) -> PrefetchBooks {
    if b.enabled && fetched_ok {
        PrefetchBooks { outstanding: Some(Speculation { k, tokens_est: tokens_estimate_spec(rendered_len) }), ..b }
    } else {
        b
    }
}

/// The books at mission close, and the speculation left unconsumed.
pub open spec fn close_spec(b: PrefetchBooks) -> (PrefetchBooks, Option<Speculation>) {
    match b.outstanding {
        None => (b, None),
        Some(s) => (PrefetchBooks { misses: (b.misses + 1) as u32, outstanding: None, ..b }, Some(s)),
    }
}

impl PrefetchBooks {
    /// A running predictor with no samples: four resolutions before
    /// retirement is considered, a crossover of one half.
    pub fn new() -> (r: PrefetchBooks)
        ensures
            r == (PrefetchBooks { hits: 0, misses: 0, enabled: true, min_samples: 4, crossover_bp: 5000, outstanding: None }),
    {
        PrefetchBooks { hits: 0, misses: 0, enabled: true, min_samples: 4, crossover_bp: 5000, outstanding: None }
    }

    /// Overlay the retirement knobs (a promoted policy sets them).
    pub fn set_knobs(&mut self, min_samples: u32, crossover_bp: u32)
        ensures
            *final(self) == (PrefetchBooks { min_samples, crossover_bp, ..*old(self) }),
    {
        self.min_samples = min_samples;
        self.crossover_bp = crossover_bp;
    }

    /// A recall for `k` arrives: resolve the outstanding speculation, if
    /// any - a hit when it fetched the same `k`, else a miss - and retire
    /// the predictor when the books call for it. The speculation is gone
    /// afterwards either way.
    pub fn resolve(&mut self, k: usize) -> (r: Option<Resolution>)
        requires
            old(self).hits + old(self).misses < u32::MAX,
        ensures
            (*final(self), r) == resolve_spec(*old(self), k),
    {
        let s = match self.outstanding {
            None => return None,
            Some(s) => s,
        };
        self.outstanding = None;
        let hit = s.k == k;
        if hit {
            self.hits = self.hits + 1;
        } else {
            self.misses = self.misses + 1;
        }
        let total: u32 = self.hits + self.misses;
        let lhs: u64 = self.hits as u64 * 10000;
        let bp: u64 = self.crossover_bp as u64;
        let t: u64 = total as u64;
        assert(bp * t <= 0xffff_ffff * 0xffff_ffff) by (nonlinear_arith)
            requires
                bp <= 0xffff_ffff,
                t <= 0xffff_ffff,
        ;
        let rhs: u64 = bp * t;
        let retired = self.enabled && total >= self.min_samples && lhs < rhs;
        if retired {
            self.enabled = false;
        }
        Some(
            Resolution {
                predicted_k: s.k,
                hit,
                tokens_est: s.tokens_est,
                hits: self.hits,
                misses: self.misses,
                retired,
            },
        )
    }

    /// After a recall for `k` was served: while the predictor runs and
    /// the fetch succeeded, speculate that the next recall asks the same,
    /// at the cost estimated from the result's rendered length in bytes.
    pub fn speculate(&mut self, k: usize, fetched_ok: bool, rendered_len: usize)
        ensures
            *final(self) == speculate_spec(*old(self), k, fetched_ok, rendered_len),
    {
        if self.enabled && fetched_ok {
            self.outstanding = Some(Speculation { k, tokens_est: tokens_estimate(rendered_len) });
        }
    }

    /// The mission closes: a speculation still outstanding was never
    /// consumed and is booked as a miss. Returns it.
    pub fn close_unconsumed(&mut self) -> (r: Option<Speculation>)
        requires
            old(self).misses < u32::MAX,
        ensures
            (*final(self), r) == close_spec(*old(self)),
    {
        let r = self.outstanding;
        self.outstanding = None;
        if r.is_some() {
            self.misses = self.misses + 1;
        }
        r
    }
}

/// A retired predictor stays retired: no recall, served fetch or close
/// turns it back on, and it never speculates again.
pub proof fn law_retirement_is_final(b: PrefetchBooks, k: usize, fetched_ok: bool, rendered_len: usize)
    requires
        !b.enabled,
    ensures
        !resolve_spec(b, k).0.enabled,
        !speculate_spec(b, k, fetched_ok, rendered_len).enabled,
        speculate_spec(b, k, fetched_ok, rendered_len).outstanding == b.outstanding,
        !close_spec(b).0.enabled,
{
}

/// Retirement needs samples: a recall retires the predictor only when
/// the books, that resolution counted, hold at least `min_samples`
/// resolutions at a hit rate below the crossover.
pub proof fn law_retirement_needs_samples(b: PrefetchBooks, k: usize)
    requires
        b.hits + b.misses < u32::MAX,
        resolve_spec(b, k).1 matches Some(res) && res.retired,
    ensures
        b.enabled,
        resolve_spec(b, k).0.hits + resolve_spec(b, k).0.misses == b.hits + b.misses + 1,
        resolve_spec(b, k).0.hits + resolve_spec(b, k).0.misses >= b.min_samples,
        resolve_spec(b, k).0.hits * 10000 < b.crossover_bp * (resolve_spec(b, k).0.hits
            + resolve_spec(b, k).0.misses),
        !resolve_spec(b, k).0.enabled,
{
}

/// Every recall that finds a speculation counts it exactly once, as a hit
/// exactly when it asks for the speculated `k`.
pub proof fn law_each_speculation_counted_once(b: PrefetchBooks, k: usize)
    requires
        b.hits + b.misses < u32::MAX,
        b.outstanding is Some,
    ensures
        resolve_spec(b, k).0.hits == b.hits + (if b.outstanding->0.k == k { 1int } else { 0 }),
        resolve_spec(b, k).0.misses == b.misses + (if b.outstanding->0.k == k { 0int } else { 1 }),
        resolve_spec(b, k).0.outstanding is None,
{
}

} // verus!
