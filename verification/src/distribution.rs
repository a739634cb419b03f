//! The distribution engine: a per-building weight derived from tags and
//! matched housenumbers, a floored proportional allocation of the requested
//! total, and a randomized distribution of the remainder so that the
//! populations sum to the total exactly.

use vstd::prelude::*;
use vstd::arithmetic::div_mod::{
    lemma_div_is_ordered, lemma_div_multiples_vanish, lemma_div_pos_is_pos,
    lemma_fundamental_div_mod, lemma_mod_bound,
};
use vstd::arithmetic::mul::{
    lemma_mul_inequality, lemma_mul_is_commutative, lemma_mul_is_distributive_add,
    lemma_mul_nonnegative,
};
use vstd::math::{max, min};
use crate::buildings::{
    class_of, classify, Building, BuildingClass, Buildings, MAX_BUILDINGS, MAX_HOUSENUMBERS,
};
use crate::parser::{find_tag, parse_levels, parse_levels_spec, tag_value};
use crate::rng::SeededRng;
use crate::Config;

verus! {

/// Upper bound on any single building weight under a well-formed
/// configuration; keeps sums of weights within range.
pub const MAX_WEIGHT: u64 = 2_000_000_000_000_000;

/// The level count a tag list declares: the parsed `building:levels`
/// value, or 0 when the tag is missing or malformed.
pub open spec fn levels_of(tags: Seq<(Seq<char>, Seq<char>)>) -> int {
    match tag_value(tags, "building:levels"@) {
        Some(v) => parse_levels_spec(v),
        None => 0,
    }
}

/// Declared levels clamped to the configured threshold: unrealistic
/// tall-building tags count only up to the threshold.
pub open spec fn clamped_levels(tags: Seq<(Seq<char>, Seq<char>)>, cfg: Config) -> int {
    min(levels_of(tags), max(cfg.level_threshold as int, 0))
}

/// Weight before classification: levels and matched housenumbers, each at
/// its configured factor.
pub open spec fn base_weight(levels: int, hn: int, cfg: Config) -> int {
    levels * cfg.level_factor + hn * cfg.housenumber_factor
}

/// The classification applied to a base weight: single homes are a fixed
/// one-household baseline, apartments keep the full weight, and anything
/// unspecified weighs in at half strength.
pub open spec fn class_weight(base: int, class: BuildingClass) -> int {
    match class {
        BuildingClass::SingleHome => 1,
        BuildingClass::Apartment => base,
        BuildingClass::Unspecified => base / 2,
    }
}

/// The weight of a building with the given clamped levels, housenumber
/// count and class: classified weight, but at least 1, so that every
/// standing building can house an occupant and weight sums never vanish.
pub open spec fn weight_from(levels: int, hn: int, class: BuildingClass, cfg: Config) -> int {
    max(class_weight(base_weight(levels, hn, cfg), class), 1)
}

/// The weight of a building record under the configuration.
pub open spec fn building_weight_spec(b: Building, cfg: Config) -> int {
    weight_from(
        clamped_levels(b.tags.deep_view(), cfg),
        b.housenumber_count as int,
        class_of(b.tags.deep_view(), cfg),
        cfg,
    )
}

/// Bounded nonnegative factors give a bounded nonnegative product.
proof fn lemma_mul_le(x: int, a: int, y: int, b: int)
    by (nonlinear_arith)
    requires
        0 <= x <= a,
        0 <= y <= b,
    ensures
        0 <= x * y <= a * b,
{
}

/// Of two buildings identical but for their declared levels, both below
/// the threshold, the one with more levels never weighs less.
pub proof fn lemma_weight_monotone(
    l1: int,
    l2: int,
    hn: int,
    class: BuildingClass,
    cfg: Config,
)
    requires
        0 <= l1 <= l2,
        0 <= hn,
    ensures
        weight_from(l1, hn, class, cfg) <= weight_from(l2, hn, class, cfg),
{
    lemma_mul_inequality(l1, l2, cfg.level_factor as int);
    lemma_mul_nonnegative(l1, cfg.level_factor as int);
    lemma_mul_nonnegative(hn, cfg.housenumber_factor as int);
    let b1 = base_weight(l1, hn, cfg);
    let b2 = base_weight(l2, hn, cfg);
    lemma_div_is_ordered(b1, b2, 2);
}

/// A building declaring more levels than the threshold is weighted exactly
/// as one declaring the threshold itself: levels are clamped.
pub proof fn lemma_weight_clamped(
    t1: Seq<(Seq<char>, Seq<char>)>,
    t2: Seq<(Seq<char>, Seq<char>)>,
    cfg: Config,
    extra: int,
)
    requires
        cfg.level_threshold >= 0,
        extra >= 0,
        levels_of(t1) == cfg.level_threshold as int + extra,
        levels_of(t2) == cfg.level_threshold as int,
    ensures
        clamped_levels(t1, cfg) == clamped_levels(t2, cfg),
        forall|hn: int, class: BuildingClass|
            weight_from(#[trigger] clamped_levels(t1, cfg), hn, class, cfg) == weight_from(
                clamped_levels(t2, cfg),
                hn,
                class,
                cfg,
            ),
{
}

/// Every building population is a non-negative integer.
pub proof fn lemma_population_non_negative(s: Seq<Building>, k: int)
    requires
        0 <= k < s.len(),
    ensures
        s[k].population >= 0,
{
}

/// The weight of one building, computed from its tags and housenumber
/// count.
pub fn building_weight(b: &Building, cfg: &Config) -> (w: u64)
    requires
        cfg.wf(),
        b.housenumber_count <= MAX_HOUSENUMBERS,
    ensures
        w == building_weight_spec(*b, *cfg),
        1 <= w <= MAX_WEIGHT,
{
    let levels: u64 = match find_tag(&b.tags, "building:levels") {
        Some(v) => parse_levels(v.as_str()),
        None => 0,
    };
    let thr: u64 = if cfg.level_threshold < 0 {
        0
    } else {
        cfg.level_threshold as u64
    };
    let lv: u64 = if levels > thr {
        thr
    } else {
        levels
    };
    assert(lv as int == clamped_levels(b.tags.deep_view(), *cfg));
    proof {
        lemma_mul_le(lv as int, 1_000_000, cfg.level_factor as int, 1_000_000);
        lemma_mul_le(
            b.housenumber_count as int,
            MAX_HOUSENUMBERS as int,
            cfg.housenumber_factor as int,
            1_000_000,
        );
    }
    let base: u64 = lv * (cfg.level_factor as u64) + (b.housenumber_count as u64) * (
    cfg.housenumber_factor as u64);
    let class = classify(&b.tags, cfg);
    let cw: u64 = match class {
        BuildingClass::SingleHome => 1,
        BuildingClass::Apartment => base,
        BuildingClass::Unspecified => base / 2,
    };
    if cw < 1 {
        1
    } else {
        cw
    }
}

/// Sum of the first i entries of a weight list.
pub open spec fn psum(ws: Seq<u64>, i: int) -> int
    decreases i,
{
    if i <= 0 {
        0
    } else {
        psum(ws, i - 1) + ws[i - 1]
    }
}

/// Sum of the weights of the first i buildings.
pub open spec fn sum_weights(s: Seq<Building>, cfg: Config, i: int) -> int
    decreases i,
{
    if i <= 0 {
        0
    } else {
        sum_weights(s, cfg, i - 1) + building_weight_spec(s[i - 1], cfg)
    }
}

/// Sum of the populations of the first i buildings.
pub open spec fn sum_pop(s: Seq<Building>, i: int) -> int
    decreases i,
{
    if i <= 0 {
        0
    } else {
        sum_pop(s, i - 1) + s[i - 1].population
    }
}

/// r is b with at most the population changed.
pub open spec fn same_but_population(b: Building, r: Building) -> bool {
    &&& r.id == b.id
    &&& r.footprint == b.footprint
    &&& r.tags == b.tags
    &&& r.housenumber_count == b.housenumber_count
}

/// b with its population set to p and all else kept.
pub open spec fn with_population(b: Building, p: u64) -> Building {
    Building {
        id: b.id,
        footprint: b.footprint,
        tags: b.tags,
        housenumber_count: b.housenumber_count,
        population: p,
    }
}

/// The weight of every building in the collection, in order.
pub open spec fn weights_of(s: Seq<Building>, cfg: Config) -> Seq<u64> {
    Seq::new(s.len(), |i: int| building_weight_spec(s[i], cfg) as u64)
}

/// Every building holding the floor of its proportional share of the
/// total, by weight.
pub open spec fn floored(s: Seq<Building>, cfg: Config, total: u64) -> Seq<Building> {
    let ws = weights_of(s, cfg);
    let wt = psum(ws, s.len() as int);
    Seq::new(
        s.len(),
        |i: int| with_population(s[i], ((total as int) * (ws[i] as int) / wt) as u64),
    )
}

/// The index whose weight interval contains r, scanning from position i:
/// the smallest index at or after i whose prefix sum exceeds r.
pub open spec fn pick_from(ws: Seq<u64>, r: int, i: int) -> int
    decreases ws.len() - i,
{
    if i < 0 || i >= ws.len() {
        0
    } else if r < psum(ws, i + 1) {
        i
    } else {
        pick_from(ws, r, i + 1)
    }
}

/// The collection with one more occupant in building k.
pub open spec fn bump(s: Seq<Building>, k: int) -> Seq<Building> {
    s.update(k, with_population(s[k], (s[k].population + 1) as u64))
}

/// Which building the next remainder unit goes to, and the generator
/// state afterwards: two draws select a building by weight; if its
/// population is still below the reroll threshold, a further draw decides
/// (with the configured probability out of 100) whether the unit is
/// redrawn once from the same distribution.
#[verifier::opaque]
pub open spec fn step_choice(
    s: Seq<Building>,
    ws: Seq<u64>,
    wt: int,
    thr: u64,
    prob: int,
    st: u64,
) -> (int, u64) {
    let s1 = crate::rng::rng_next_state(st);
    let s2 = crate::rng::rng_next_state(s1);
    let r = ((s1 as int) * 0x1_0000_0000_0000_0000 + (s2 as int)) % wt;
    let pick = pick_from(ws, r, 0);
    if s[pick].population < thr {
        let s3 = crate::rng::rng_next_state(s2);
        if (s3 as int) % 100 < prob {
            let s4 = crate::rng::rng_next_state(s3);
            let s5 = crate::rng::rng_next_state(s4);
            let r2 = ((s4 as int) * 0x1_0000_0000_0000_0000 + (s5 as int)) % wt;
            (pick_from(ws, r2, 0), s5)
        } else {
            (pick, s3)
        }
    } else {
        (pick, s2)
    }
}

/// One remainder unit handed out to the chosen building.
pub open spec fn remainder_step(
    s: Seq<Building>,
    ws: Seq<u64>,
    wt: int,
    thr: u64,
    prob: int,
    st: u64,
) -> (Seq<Building>, u64) {
    let c = step_choice(s, ws, wt, thr, prob, st);
    (bump(s, c.0), c.1)
}

/// The collection and generator state after handing out `units` remainder
/// units one at a time.
pub open spec fn distribute_remainder(
    s: Seq<Building>,
    ws: Seq<u64>,
    wt: int,
    thr: u64,
    prob: int,
    st: u64,
    units: nat,
) -> (Seq<Building>, u64)
    decreases units,
{
    if units == 0 {
        (s, st)
    } else {
        let next = remainder_step(s, ws, wt, thr, prob, st);
        distribute_remainder(next.0, ws, wt, thr, prob, next.1, (units - 1) as nat)
    }
}

/// The whole allocation as a function of the collection, the
/// configuration, the total and the generator seed: floors first, then the
/// remainder unit by unit. The first component is the final collection,
/// the second the final generator state.
pub open spec fn distribute_spec(
    s: Seq<Building>,
    cfg: Config,
    total: u64,
    st: u64,
) -> (Seq<Building>, u64) {
    let ws = weights_of(s, cfg);
    let wt = psum(ws, s.len() as int);
    let fl = floored(s, cfg, total);
    let units = (total as int - sum_pop(fl, fl.len() as int)) as nat;
    distribute_remainder(fl, ws, wt, cfg.reroll_threshold, cfg.reroll_probability as int, st, units)
}

/// Prefix sums of weights grow with the prefix.
proof fn lemma_psum_monotone(ws: Seq<u64>, i: int, j: int)
    requires
        0 <= i <= j <= ws.len(),
    ensures
        psum(ws, i) <= psum(ws, j),
    decreases j,
{
    if i < j {
        lemma_psum_monotone(ws, i, j - 1);
    }
}

/// A list of weights each at least 1 sums to at least its length.
proof fn lemma_psum_lower(ws: Seq<u64>, i: int)
    requires
        0 <= i <= ws.len(),
        forall|j: int| 0 <= j < i ==> 1 <= #[trigger] ws[j],
    ensures
        psum(ws, i) >= i,
    decreases i,
{
    if i > 0 {
        lemma_psum_lower(ws, i - 1);
    }
}

/// A weight list agreeing pointwise with the building weights sums to the
/// same value.
proof fn lemma_sums_agree(s: Seq<Building>, cfg: Config, ws: Seq<u64>, i: int)
    requires
        0 <= i <= s.len(),
        i <= ws.len(),
        forall|j: int| 0 <= j < i ==> #[trigger] ws[j] == building_weight_spec(s[j], cfg),
    ensures
        sum_weights(s, cfg, i) == psum(ws, i),
    decreases i,
{
    if i > 0 {
        lemma_sums_agree(s, cfg, ws, i - 1);
    }
}

/// Population sums read only the populations of the prefix.
proof fn lemma_sum_pop_congruence(s1: Seq<Building>, s2: Seq<Building>, i: int)
    requires
        0 <= i <= s1.len(),
        i <= s2.len(),
        forall|j: int| 0 <= j < i ==> s1[j].population == s2[j].population,
    ensures
        sum_pop(s1, i) == sum_pop(s2, i),
    decreases i,
{
    if i > 0 {
        lemma_sum_pop_congruence(s1, s2, i - 1);
    }
}

/// Raising one population by one raises the prefix sum by one.
proof fn lemma_sum_pop_bump(s: Seq<Building>, s2: Seq<Building>, k: int, i: int)
    requires
        s2.len() == s.len(),
        0 <= k < i <= s.len(),
        forall|j: int| 0 <= j < s.len() && j != k ==> s2[j].population == s[j].population,
        s2[k].population == s[k].population + 1,
    ensures
        sum_pop(s2, i) == sum_pop(s, i) + 1,
    decreases i,
{
    if i - 1 == k {
        lemma_sum_pop_congruence(s, s2, i - 1);
    } else {
        lemma_sum_pop_bump(s, s2, k, i - 1);
    }
}

/// Population sums over a prefix are never negative.
proof fn lemma_sum_pop_nonneg(s: Seq<Building>, i: int)
    requires
        0 <= i <= s.len(),
    ensures
        sum_pop(s, i) >= 0,
    decreases i,
{
    if i > 0 {
        lemma_sum_pop_nonneg(s, i - 1);
    }
}

/// No single population exceeds the prefix sum that includes it.
proof fn lemma_pop_le_sum(s: Seq<Building>, k: int, i: int)
    requires
        0 <= k < i <= s.len(),
    ensures
        s[k].population <= sum_pop(s, i),
        sum_pop(s, i) >= 0,
    decreases i,
{
    lemma_sum_pop_nonneg(s, i);
    if k < i - 1 {
        lemma_pop_le_sum(s, k, i - 1);
    } else {
        lemma_sum_pop_nonneg(s, i - 1);
        assert(sum_pop(s, i) == sum_pop(s, i - 1) + s[i - 1].population);
    }
}

/// Floors of two shares of a common denominator never exceed the floor of
/// their sum.
proof fn lemma_div_superadd(a: int, b: int, d: int)
    requires
        0 <= a,
        0 <= b,
        0 < d,
    ensures
        a / d + b / d <= (a + b) / d,
{
    lemma_fundamental_div_mod(a, d);
    lemma_fundamental_div_mod(b, d);
    lemma_mod_bound(a, d);
    lemma_mod_bound(b, d);
    lemma_div_pos_is_pos(a, d);
    lemma_div_pos_is_pos(b, d);
    let q = a / d + b / d;
    lemma_mul_is_distributive_add(d, a / d, b / d);
    assert(d * q <= a + b);
    lemma_div_is_ordered(d * q, a + b, d);
    lemma_mul_is_commutative(d, q);
    lemma_div_multiples_vanish(q, d);
}

/// A proportional share of a total, floored, never exceeds the total.
proof fn lemma_share_le_total(t: int, w: int, ww: int)
    requires
        0 <= t,
        0 < ww,
        0 <= w <= ww,
    ensures
        0 <= t * w / ww <= t,
{
    lemma_mul_nonnegative(t, w);
    lemma_div_pos_is_pos(t * w, ww);
    lemma_mul_inequality(w, ww, t);
    lemma_mul_is_commutative(w, t);
    lemma_mul_is_commutative(ww, t);
    lemma_div_is_ordered(t * w, t * ww, ww);
    lemma_mul_is_commutative(t, ww);
    lemma_div_multiples_vanish(t, ww);
}

/// A weighted pick always lands on a real index.
proof fn lemma_pick_range(ws: Seq<u64>, r: int, i: int)
    requires
        0 <= i <= ws.len(),
        ws.len() >= 1,
    ensures
        0 <= pick_from(ws, r, i) < ws.len(),
    decreases ws.len() - i,
{
    if !(i < 0 || i >= ws.len()) && !(r < psum(ws, i + 1)) {
        lemma_pick_range(ws, r, i + 1);
    }
}

/// One remainder step keeps the number of buildings.
#[verifier::rlimit(100)]
proof fn lemma_step_len(
    s: Seq<Building>,
    ws: Seq<u64>,
    wt: int,
    thr: u64,
    prob: int,
    st: u64,
)
    requires
        ws.len() == s.len(),
        s.len() >= 1,
    ensures
        remainder_step(s, ws, wt, thr, prob, st).0.len() == s.len(),
{
    reveal(step_choice);
    let sa = crate::rng::rng_next_state(st);
    let sb = crate::rng::rng_next_state(sa);
    let r = ((sa as int) * 0x1_0000_0000_0000_0000 + (sb as int)) % wt;
    lemma_pick_range(ws, r, 0);
    let sc = crate::rng::rng_next_state(sb);
    let sd = crate::rng::rng_next_state(sc);
    let se = crate::rng::rng_next_state(sd);
    let r2 = ((sd as int) * 0x1_0000_0000_0000_0000 + (se as int)) % wt;
    lemma_pick_range(ws, r2, 0);
    assert(0 <= step_choice(s, ws, wt, thr, prob, st).0 < s.len());
}

/// Handing out remainder units never changes how many buildings there are.
pub proof fn lemma_distribute_remainder_len(
    s: Seq<Building>,
    ws: Seq<u64>,
    wt: int,
    thr: u64,
    prob: int,
    st: u64,
    units: nat,
)
    requires
        ws.len() == s.len(),
        s.len() >= 1,
    ensures
        distribute_remainder(s, ws, wt, thr, prob, st, units).0.len() == s.len(),
    decreases units,
{
    if units > 0 {
        let next = remainder_step(s, ws, wt, thr, prob, st);
        lemma_step_len(s, ws, wt, thr, prob, st);
        lemma_distribute_remainder_len(next.0, ws, wt, thr, prob, next.1, (units - 1) as nat);
    }
}

/// The whole allocation keeps the number of buildings.
pub proof fn lemma_distribute_spec_len(s: Seq<Building>, cfg: Config, total: u64, st: u64)
    requires
        s.len() >= 1,
    ensures
        distribute_spec(s, cfg, total, st).0.len() == s.len(),
{
    let ws = weights_of(s, cfg);
    let wt = psum(ws, s.len() as int);
    let fl = floored(s, cfg, total);
    let units = (total as int - sum_pop(fl, fl.len() as int)) as nat;
    lemma_distribute_remainder_len(fl, ws, wt, cfg.reroll_threshold,
        cfg.reroll_probability as int, st, units);
}

/// Collections describing the same buildings have the same weights.
proof fn lemma_weights_like(s1: Seq<Building>, s2: Seq<Building>, cfg: Config)
    requires
        crate::buildings::like_collection(s1, s2),
    ensures
        weights_of(s1, cfg) == weights_of(s2, cfg),
{
    assert forall|i: int| 0 <= i < s1.len() implies building_weight_spec(s1[i], cfg)
        == building_weight_spec(#[trigger] s2[i], cfg) by {
        assert(crate::buildings::building_like(s1[i], s2[i]));
        assert(s1[i].tags.deep_view() =~= s2[i].tags.deep_view());
    }
    assert(weights_of(s1, cfg) =~= weights_of(s2, cfg));
}

/// One remainder step lands on the same building in collections that
/// describe the same buildings, and keeps them alike.
#[verifier::rlimit(100)]
proof fn lemma_step_like(
    s1: Seq<Building>,
    s2: Seq<Building>,
    ws: Seq<u64>,
    wt: int,
    thr: u64,
    prob: int,
    st: u64,
)
    requires
        crate::buildings::like_collection(s1, s2),
        ws.len() == s1.len(),
        s1.len() >= 1,
    ensures
        step_choice(s1, ws, wt, thr, prob, st) == step_choice(s2, ws, wt, thr, prob, st),
        crate::buildings::like_collection(
            remainder_step(s1, ws, wt, thr, prob, st).0,
            remainder_step(s2, ws, wt, thr, prob, st).0,
        ),
        remainder_step(s1, ws, wt, thr, prob, st).1 == remainder_step(
            s2,
            ws,
            wt,
            thr,
            prob,
            st,
        ).1,
{
    reveal(step_choice);
    let sa = crate::rng::rng_next_state(st);
    let sb = crate::rng::rng_next_state(sa);
    let r = ((sa as int) * 0x1_0000_0000_0000_0000 + (sb as int)) % wt;
    lemma_pick_range(ws, r, 0);
    let pick = pick_from(ws, r, 0);
    assert(crate::buildings::building_like(s1[pick], s2[pick]));
    let sc = crate::rng::rng_next_state(sb);
    let sd = crate::rng::rng_next_state(sc);
    let se = crate::rng::rng_next_state(sd);
    let r2 = ((sd as int) * 0x1_0000_0000_0000_0000 + (se as int)) % wt;
    lemma_pick_range(ws, r2, 0);
    assert(step_choice(s1, ws, wt, thr, prob, st) == step_choice(s2, ws, wt, thr, prob, st));
    let c = step_choice(s1, ws, wt, thr, prob, st);
    assert(0 <= c.0 < s1.len());
    assert(crate::buildings::building_like(s1[c.0], s2[c.0]));
    assert forall|j: int| 0 <= j < bump(s1, c.0).len() implies crate::buildings::building_like(
        #[trigger] bump(s1, c.0)[j],
        bump(s2, c.0)[j],
    ) by {
        assert(crate::buildings::building_like(s1[j], s2[j]));
    }
    assert(crate::buildings::like_collection(bump(s1, c.0), bump(s2, c.0)));
}

/// Remainder distribution is a function of the buildings described, the
/// weights and the seed: alike collections stay alike and leave the
/// generator in the same state.
proof fn lemma_remainder_like(
    s1: Seq<Building>,
    s2: Seq<Building>,
    ws: Seq<u64>,
    wt: int,
    thr: u64,
    prob: int,
    st: u64,
    units: nat,
)
    requires
        crate::buildings::like_collection(s1, s2),
        ws.len() == s1.len(),
        s1.len() >= 1,
    ensures
        crate::buildings::like_collection(
            distribute_remainder(s1, ws, wt, thr, prob, st, units).0,
            distribute_remainder(s2, ws, wt, thr, prob, st, units).0,
        ),
        distribute_remainder(s1, ws, wt, thr, prob, st, units).1 == distribute_remainder(
            s2,
            ws,
            wt,
            thr,
            prob,
            st,
            units,
        ).1,
    decreases units,
{
    if units > 0 {
        let n1 = remainder_step(s1, ws, wt, thr, prob, st);
        let n2 = remainder_step(s2, ws, wt, thr, prob, st);
        lemma_step_like(s1, s2, ws, wt, thr, prob, st);
        lemma_step_len(s1, ws, wt, thr, prob, st);
        lemma_remainder_like(n1.0, n2.0, ws, wt, thr, prob, n1.1, (units - 1) as nat);
    }
}

/// The allocation is a function of the buildings described, the
/// configuration, the total and the seed: collections describing the same
/// buildings receive the same populations and leave the generator in the
/// same state.
pub proof fn lemma_distribute_spec_like(
    s1: Seq<Building>,
    s2: Seq<Building>,
    cfg: Config,
    total: u64,
    st: u64,
)
    requires
        crate::buildings::like_collection(s1, s2),
        s1.len() >= 1,
    ensures
        crate::buildings::like_collection(
            distribute_spec(s1, cfg, total, st).0,
            distribute_spec(s2, cfg, total, st).0,
        ),
        distribute_spec(s1, cfg, total, st).1 == distribute_spec(s2, cfg, total, st).1,
{
    lemma_weights_like(s1, s2, cfg);
    let ws = weights_of(s1, cfg);
    let wt = psum(ws, s1.len() as int);
    let fl1 = floored(s1, cfg, total);
    let fl2 = floored(s2, cfg, total);
    assert forall|j: int| 0 <= j < fl1.len() implies crate::buildings::building_like(
        #[trigger] fl1[j],
        fl2[j],
    ) by {
        assert(crate::buildings::building_like(s1[j], s2[j]));
    }
    assert(crate::buildings::like_collection(fl1, fl2));
    lemma_sum_pop_congruence(fl1, fl2, fl1.len() as int);
    lemma_remainder_like(
        fl1,
        fl2,
        ws,
        wt,
        cfg.reroll_threshold,
        cfg.reroll_probability as int,
        st,
        (total as int - sum_pop(fl1, fl1.len() as int)) as nat,
    );
}

/// Scanning past indices whose prefix sum does not exceed r leaves the
/// picked index unchanged.
proof fn lemma_pick_skip(ws: Seq<u64>, r: int, k: int, i: int)
    requires
        0 <= k <= i <= ws.len(),
        forall|j: int| k <= j < i ==> #[trigger] psum(ws, j + 1) <= r,
    ensures
        pick_from(ws, r, k) == pick_from(ws, r, i),
    decreases i - k,
{
    if k < i {
        lemma_pick_skip(ws, r, k + 1, i);
    }
}

/// Picks the index whose weight interval contains r: the smallest idx with
/// r below the prefix sum through idx.
fn weighted_pick(ws: &Vec<u64>, total: u128, r: u128) -> (idx: usize)
    requires
        ws@.len() >= 1,
        total == psum(ws@, ws@.len() as int),
        (r as int) < total,
    ensures
        idx < ws@.len(),
        psum(ws@, idx as int) <= r as int,
        (r as int) < psum(ws@, idx as int + 1),
        idx as int == pick_from(ws@, r as int, 0),
{
    let n = ws.len();
    let mut acc: u128 = 0;
    let mut i: usize = 0;
    while i < n
        invariant
            n == ws@.len(),
            i <= n,
            acc == psum(ws@, i as int),
            acc <= r,
            total == psum(ws@, n as int),
            (r as int) < total,
            forall|j: int| 0 <= j < i ==> #[trigger] psum(ws@, j + 1) <= r as int,
        decreases n - i,
    {
        proof {
            lemma_psum_monotone(ws@, i as int + 1, n as int);
        }
        let w = ws[i];
        let acc2 = acc + (w as u128);
        if r < acc2 {
            proof {
                lemma_pick_skip(ws@, r as int, 0, i as int);
            }
            return i;
        }
        acc = acc2;
        i += 1;
    }
    proof {
        assert(false);
    }
    0
}

impl Buildings {
    /// Distributes `inhabitants` over the collection: every building gets
    /// the floor of its proportional share by weight, and the remainder is
    /// handed out one unit at a time to weighted random picks. A pick whose
    /// population is still below the configured reroll threshold is, with
    /// the configured probability, redrawn once from the same distribution
    /// before the unit is granted. When at least one building is present,
    /// the populations afterwards sum to `inhabitants` exactly.
    pub fn distribute_population(
        &mut self,
        inhabitants: u64,
        config: &Config,
        rng: &mut SeededRng,
    )
        requires
            old(self).wf(),
            config.wf(),
        ensures
            final(self).wf(),
            final(self)@.len() == old(self)@.len(),
            forall|k: int|
                0 <= k < old(self)@.len() ==> same_but_population(
                    old(self)@[k],
                    #[trigger] final(self)@[k],
                ),
            old(self)@.len() >= 1 ==> sum_pop(final(self)@, final(self)@.len() as int)
                == inhabitants as int,
            old(self)@.len() == 0 ==> final(self)@ == old(self)@ && *final(rng) == *old(rng),
            forall|k: int|
                0 <= k < old(self)@.len() ==> (#[trigger] final(self)@[k]).population as int
                    >= inhabitants as int * building_weight_spec(old(self)@[k], *config)
                    / sum_weights(old(self)@, *config, old(self)@.len() as int),
            old(self)@.len() >= 1 ==> final(self)@ == distribute_spec(
                old(self)@,
                *config,
                inhabitants,
                old(rng).state,
            ).0,
            old(self)@.len() >= 1 ==> final(rng).state == distribute_spec(
                old(self)@,
                *config,
                inhabitants,
                old(rng).state,
            ).1,
    {
        let ghost orig = self@;
        let ghost cfg = *config;
        let n = self.inner.len();
        if n == 0 {
            return ;
        }
        let mut ws: Vec<u64> = Vec::new();
        let mut i: usize = 0;
        while i < n
            invariant
                self@ == orig,
                self.wf(),
                n == orig.len(),
                i <= n,
                ws@.len() == i,
                cfg == *config,
                cfg.wf(),
                forall|j: int|
                    0 <= j < i ==> #[trigger] ws@[j] == building_weight_spec(orig[j], cfg)
                        && 1 <= ws@[j] <= MAX_WEIGHT,
            decreases n - i,
        {
            let w = building_weight(&self.inner[i], config);
            ws.push(w);
            i += 1;
        }
        let mut total_w: u128 = 0;
        i = 0;
        while i < n
            invariant
                n == ws@.len(),
                i <= n,
                n <= MAX_BUILDINGS,
                forall|j: int|
                    0 <= j < n ==> 1 <= #[trigger] ws@[j] <= MAX_WEIGHT,
                total_w == psum(ws@, i as int),
                total_w <= (i as int) * (MAX_WEIGHT as int),
            decreases n - i,
        {
            total_w = total_w + (ws[i] as u128);
            i += 1;
        }
        proof {
            lemma_psum_lower(ws@, n as int);
            lemma_sums_agree(orig, cfg, ws@, n as int);
            assert(ws@ =~= weights_of(orig, cfg));
        }
        let ghost bigw = total_w as int;
        let ghost fl = floored(orig, cfg, inhabitants);
        let mut allocated: u64 = 0;
        i = 0;
        while i < n
            invariant
                n == orig.len(),
                n == self@.len(),
                n == ws@.len(),
                1 <= n <= MAX_BUILDINGS,
                i <= n,
                cfg == *config,
                cfg.wf(),
                forall|j: int|
                    0 <= j < n ==> #[trigger] ws@[j] == building_weight_spec(orig[j], cfg)
                        && 1 <= ws@[j] <= MAX_WEIGHT,
                total_w == psum(ws@, n as int),
                bigw == total_w as int,
                1 <= bigw,
                ws@ == weights_of(orig, cfg),
                fl == floored(orig, cfg, inhabitants),
                forall|j: int|
                    0 <= j < i ==> same_but_population(orig[j], #[trigger] self@[j])
                        && self@[j].population as int == inhabitants as int * (ws@[j] as int)
                        / bigw,
                forall|j: int| 0 <= j < i ==> #[trigger] self@[j] == fl[j],
                forall|j: int| i <= j < n ==> #[trigger] self@[j] == orig[j],
                allocated as int == sum_pop(self@, i as int),
                allocated as int <= inhabitants as int * psum(ws@, i as int) / bigw,
                inhabitants as int * psum(ws@, i as int) / bigw <= inhabitants as int,
            decreases n - i,
        {
            proof {
                lemma_psum_monotone(ws@, 0, i as int);
                lemma_psum_monotone(ws@, i as int + 1, n as int);
                lemma_mul_le(
                    inhabitants as int,
                    u64::MAX as int,
                    ws@[i as int] as int,
                    MAX_WEIGHT as int,
                );
                lemma_share_le_total(inhabitants as int, ws@[i as int] as int, bigw);
            }
            let share128: u128 = (inhabitants as u128) * (ws[i] as u128) / total_w;
            let share: u64 = share128 as u64;
            let ghost prev = self@;
            self.inner[i].population = share;
            proof {
                lemma_sum_pop_congruence(prev, self@, i as int);
                lemma_div_superadd(
                    inhabitants as int * psum(ws@, i as int),
                    inhabitants as int * (ws@[i as int] as int),
                    bigw,
                );
                lemma_mul_is_distributive_add(
                    inhabitants as int,
                    psum(ws@, i as int),
                    ws@[i as int] as int,
                );
                lemma_mul_nonnegative(inhabitants as int, psum(ws@, i as int));
                lemma_share_le_total(inhabitants as int, psum(ws@, i as int + 1), bigw);
                assert(self@[i as int] == fl[i as int]) by {
                    assert(fl[i as int] == with_population(
                        orig[i as int],
                        ((inhabitants as int) * (ws@[i as int] as int) / bigw) as u64,
                    ));
                }
            }
            allocated = allocated + share;
            i += 1;
        }
        proof {
            assert(self@ =~= fl);
        }
        let rem: u64 = inhabitants - allocated;
        let ghost st0 = rng.state;
        let mut given: u64 = 0;
        while given < rem
            invariant
                n == orig.len(),
                n == self@.len(),
                n == ws@.len(),
                1 <= n,
                cfg == *config,
                cfg.wf(),
                forall|j: int|
                    0 <= j < n ==> #[trigger] ws@[j] == building_weight_spec(orig[j], cfg)
                        && 1 <= ws@[j] <= MAX_WEIGHT,
                total_w == psum(ws@, n as int),
                bigw == total_w as int,
                1 <= bigw,
                given <= rem,
                allocated as int + rem as int == inhabitants as int,
                sum_pop(self@, n as int) == allocated as int + given as int,
                forall|j: int|
                    0 <= j < n ==> same_but_population(orig[j], #[trigger] self@[j]),
                forall|j: int|
                    0 <= j < n ==> (#[trigger] self@[j]).population as int >= inhabitants as int
                        * (ws@[j] as int) / bigw,
                ws@ == weights_of(orig, cfg),
                fl == floored(orig, cfg, inhabitants),
                allocated as int == sum_pop(fl, n as int),
                fl.len() == n,
                distribute_remainder(
                    fl,
                    ws@,
                    bigw,
                    cfg.reroll_threshold,
                    cfg.reroll_probability as int,
                    st0,
                    rem as nat,
                ) == distribute_remainder(
                    self@,
                    ws@,
                    bigw,
                    cfg.reroll_threshold,
                    cfg.reroll_probability as int,
                    rng.state,
                    (rem - given) as nat,
                ),
            decreases rem - given,
        {
            let ghost cur = self@;
            let ghost cst = rng.state;
            let d1 = rng.next();
            let d2 = rng.next();
            let mixed: u128 = (d1 as u128) * 0x1_0000_0000_0000_0000u128 + (d2 as u128);
            proof {
                lemma_mod_bound(mixed as int, bigw);
            }
            let r = mixed % total_w;
            let pick = weighted_pick(&ws, total_w, r);
            let below = self.inner[pick].population < config.reroll_threshold;
            let idx: usize;
            if below {
                let roll = rng.next() % 100;
                if roll < (config.reroll_probability as u64) {
                    let e1 = rng.next();
                    let e2 = rng.next();
                    let mixed2: u128 = (e1 as u128) * 0x1_0000_0000_0000_0000u128 + (
                    e2 as u128);
                    proof {
                        lemma_mod_bound(mixed2 as int, bigw);
                    }
                    let r2 = mixed2 % total_w;
                    idx = weighted_pick(&ws, total_w, r2);
                } else {
                    idx = pick;
                }
            } else {
                idx = pick;
            }
            proof {
                lemma_pop_le_sum(self@, idx as int, n as int);
            }
            let p = self.inner[idx].population;
            let ghost prev = self@;
            self.inner[idx].population = p + 1;
            proof {
                lemma_sum_pop_bump(prev, self@, idx as int, n as int);
                reveal(step_choice);
                let stepres = remainder_step(
                    cur,
                    ws@,
                    bigw,
                    cfg.reroll_threshold,
                    cfg.reroll_probability as int,
                    cst,
                );
                assert(self@ =~= stepres.0) by {
                    assert(stepres.0 == bump(cur, idx as int));
                    assert(self@ == prev.update(
                        idx as int,
                        with_population(cur[idx as int], (cur[idx as int].population + 1) as u64),
                    ));
                }
                assert(rng.state == stepres.1);
            }
            given = given + 1;
        }
        proof {
            assert(forall|k: int|
                0 <= k < n ==> (#[trigger] self@[k]).wf() && same_but_population(
                    orig[k],
                    self@[k],
                ));
            assert(distribute_remainder(
                fl,
                ws@,
                bigw,
                cfg.reroll_threshold,
                cfg.reroll_probability as int,
                st0,
                rem as nat,
            ) == (self@, rng.state));
            assert(psum(weights_of(orig, cfg), orig.len() as int) == bigw);
            assert(sum_pop(fl, fl.len() as int) == allocated as int);
            assert((inhabitants as int - sum_pop(fl, fl.len() as int)) as nat == rem as nat);
            assert(distribute_spec(orig, cfg, inhabitants, st0) == (self@, rng.state));
        }
    }
}

} // verus!
