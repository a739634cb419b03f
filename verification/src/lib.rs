//! Distributes a target number of inhabitants over building footprints
//! extracted from OpenStreetMap data.
//!
//! The crate models buildings as integer-coordinate polygons (decimicro
//! degrees, as OSM stores them), matches housenumber points to buildings,
//! optionally reduces footprints to centroids, filters buildings that lie in
//! excluded areas, and finally allocates an integer population to every
//! building so that the counts sum exactly to the requested total.

pub mod buildings;
pub mod distribution;
pub mod geometry;
pub mod parser;
pub mod rng;

use vstd::prelude::*;
use crate::buildings::{
    building_like, built_collection, exclude_filter, excluded, like_collection,
    reduced_collection, Building, Buildings, ExcludeArea, Housenumber, RawWay, MAX_BUILDINGS,
    MAX_HOUSENUMBERS,
};
use crate::distribution::{distribute_spec, sum_pop};
use crate::rng::SeededRng;

verus! {

/// Run parameters shared by every stage of a population run.
pub struct Config {
    /// Ceiling applied to the parsed `building:levels` value.
    pub level_threshold: i32,
    /// Population value below which a building's remainder draw is rerolled.
    pub reroll_threshold: u64,
    /// Probability (0-100) that a below-threshold building is rerolled.
    pub reroll_probability: i32,
    /// Weight contributed per building level.
    pub level_factor: usize,
    /// Weight contributed per matched housenumber point.
    pub housenumber_factor: usize,
    /// Endpoint used by the caller to query exclusion areas.
    pub request_url: String,
    /// Landuse values that mark an area as excluded.
    pub exclude_landuse: Vec<String>,
    /// Tag values that mark an area as excluded.
    pub exclude_tags: Vec<String>,
    /// Building classes treated as a single household.
    pub single_home_list: Vec<String>,
    /// Building classes with full level/housenumber weighting.
    pub apartment_list: Vec<String>,
    /// Building classes with reduced default weighting.
    pub unspecified_list: Vec<String>,
}

impl Config {
    /// Bounds that keep every weight and weight sum within machine range.
    pub open spec fn wf(&self) -> bool {
        &&& self.level_threshold <= 1_000_000
        &&& self.level_factor <= 1_000_000
        &&& self.housenumber_factor <= 1_000_000
        &&& 0 <= self.reroll_probability <= 100
    }
}

/// The whole pipeline, stage by stage: `built` is the collection the ways
/// and housenumber points yield, `reduced` is `built` after the optional
/// centroid reduction, `filtered` describes the buildings surviving the
/// exclusion areas, and `out_seq` with the final generator state `st1` is
/// the allocation the distribution engine computes over `filtered` from
/// seed state `st0`.
pub open spec fn pipeline_stages(
    built: Seq<Building>,
    reduced: Seq<Building>,
    filtered: Seq<Building>,
    ways: Seq<RawWay>,
    hns: Seq<Housenumber>,
    areas: Seq<ExcludeArea>,
    total: u64,
    use_centroid: bool,
    cfg: Config,
    st0: u64,
    out_seq: Seq<Building>,
    st1: u64,
) -> bool {
    &&& built_collection(built, ways, hns)
    &&& (use_centroid ==> reduced_collection(built, reduced))
    &&& (!use_centroid ==> reduced == built)
    &&& like_collection(filtered, exclude_filter(reduced, areas, reduced.len() as int))
    &&& (filtered.len() >= 1 ==> out_seq == distribute_spec(filtered, cfg, total, st0).0
        && st1 == distribute_spec(filtered, cfg, total, st0).1)
    &&& (filtered.len() == 0 ==> out_seq == filtered && st1 == st0)
}

/// The pipeline is deterministic under a seed: two runs over equal map
/// data, totals, flags and configurations, started from the same generator
/// state, return collections describing the same buildings — equal
/// identifiers in the same order, equal footprints, tags, housenumber
/// counts and populations — and leave the generator in the same state.
/// The seeded random source is the only permitted nondeterminism, and it
/// is fixed by the seed.
pub proof fn lemma_pipeline_deterministic(
    b1: Seq<Building>,
    r1: Seq<Building>,
    f1: Seq<Building>,
    out1: Seq<Building>,
    st1: u64,
    b2: Seq<Building>,
    r2: Seq<Building>,
    f2: Seq<Building>,
    out2: Seq<Building>,
    st2: u64,
    ways: Seq<RawWay>,
    hns: Seq<Housenumber>,
    areas: Seq<ExcludeArea>,
    total: u64,
    use_centroid: bool,
    cfg: Config,
    st0: u64,
)
    requires
        pipeline_stages(b1, r1, f1, ways, hns, areas, total, use_centroid, cfg, st0, out1, st1),
        pipeline_stages(b2, r2, f2, ways, hns, areas, total, use_centroid, cfg, st0, out2, st2),
    ensures
        like_collection(out1, out2),
        st1 == st2,
{
    assert forall|k: int| 0 <= k < b1.len() implies building_like(#[trigger] b1[k], b2[k]) by {
        let w = crate::buildings::kept_ways(ways, ways.len() as int)[k];
        assert(crate::buildings::built_from(b1[k], w, b1[k].housenumber_count as int));
    }
    assert(like_collection(b1, b2));
    assert forall|k: int| 0 <= k < r1.len() implies building_like(#[trigger] r1[k], r2[k]) by {
        if use_centroid {
            assert(crate::buildings::reduced_building(b1[k], r1[k]));
            assert(crate::buildings::reduced_building(b2[k], r2[k]));
            assert(building_like(b1[k], b2[k]));
        } else {
            assert(building_like(b1[k], b2[k]));
        }
    }
    assert(like_collection(r1, r2));
    crate::buildings::lemma_filter_like(r1, r2, areas, r1.len() as int);
    let g1 = exclude_filter(r1, areas, r1.len() as int);
    let g2 = exclude_filter(r2, areas, r2.len() as int);
    assert forall|k: int| 0 <= k < f1.len() implies building_like(#[trigger] f1[k], f2[k]) by {
        assert(building_like(f1[k], g1[k]));
        assert(building_like(g1[k], g2[k]));
        assert(building_like(f2[k], g2[k]));
    }
    assert(like_collection(f1, f2));
    if f1.len() >= 1 {
        crate::distribution::lemma_distribute_spec_like(f1, f2, cfg, total, st0);
    }
}

/// Runs the whole pipeline on already-loaded map data: builds the building
/// collection from the ways, matches the housenumber points, optionally
/// reduces footprints to centroids, drops buildings inside any exclusion
/// area, and distributes the requested population over what remains.
pub fn populate(
    ways: Vec<RawWay>,
    housenumbers: &Vec<Housenumber>,
    areas: &Vec<ExcludeArea>,
    inhabitants: u64,
    use_centroid: bool,
    config: &Config,
    rng: &mut SeededRng,
) -> (out: Buildings)
    requires
        config.wf(),
        ways@.len() <= MAX_BUILDINGS,
        housenumbers@.len() <= MAX_HOUSENUMBERS,
        forall|k: int| 0 <= k < areas@.len() ==> (#[trigger] areas@[k]).wf(),
    ensures
        out.wf(),
        out@.len() >= 1 ==> sum_pop(out@, out@.len() as int) == inhabitants as int,
        forall|k: int| 0 <= k < out@.len() ==> !excluded(#[trigger] out@[k], areas@),
        use_centroid ==> forall|k: int|
            0 <= k < out@.len() ==> (#[trigger] out@[k]).footprint is Point,
        exists|built: Seq<Building>, reduced: Seq<Building>, filtered: Seq<Building>|
            #[trigger] pipeline_stages(
                built,
                reduced,
                filtered,
                ways@,
                housenumbers@,
                areas@,
                inhabitants,
                use_centroid,
                *config,
                old(rng).state,
                out@,
                final(rng).state,
            ),
{
    let ghost ways0 = ways@;
    let mut buildings = Buildings::from(ways, housenumbers, config);
    let ghost built = buildings@;
    if use_centroid {
        buildings.centroid();
    }
    let ghost mid = buildings@;
    let mut result = buildings.exclude_in(areas);
    let ghost before_dist = result@;
    result.distribute_population(inhabitants, config, rng);
    proof {
        assert(pipeline_stages(
            built,
            mid,
            before_dist,
            ways0,
            housenumbers@,
            areas@,
            inhabitants,
            use_centroid,
            *config,
            old(rng).state,
            result@,
            rng.state,
        ));
        assert forall|k: int| 0 <= k < result@.len() implies !excluded(
            #[trigger] result@[k],
            areas@,
        ) by {
            assert(result@[k].footprint == before_dist[k].footprint);
        }
        if use_centroid {
            assert forall|k: int| 0 <= k < result@.len() implies (
            #[trigger] result@[k]).footprint is Point by {
                let j = choose|j: int|
                    0 <= j < mid.len() && building_like(before_dist[k], mid[j]);
                assert(mid[j].footprint is Point);
                assert(result@[k].footprint == before_dist[k].footprint);
            }
        }
    }
    result
}

} // verus!
