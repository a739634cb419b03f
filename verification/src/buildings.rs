//! The building model: raw way data becomes `Building` records, housenumber
//! points are matched into per-building counts, footprints are reduced to
//! centroids, and buildings inside excluded areas are filtered out.

use vstd::prelude::*;
use crate::geometry::{
    centroid, centroid_point, contains, polygon_contains, ring_wf, Coordinate, Polygon,
};
use crate::parser::{find_tag, has_tag, list_contains, list_contains_exec, tag_value};
use crate::Config;

verus! {

/// Most buildings a collection may hold; keeps weight sums within range.
pub const MAX_BUILDINGS: usize = 1_000_000_000;

/// Most housenumber points a run may match; bounds per-building counts.
pub const MAX_HOUSENUMBERS: usize = 1_000_000_000;

/// The geometric representation of a building: its full polygon until
/// centroid reduction, a single point afterwards.
#[derive(Debug)]
pub enum Footprint {
    Polygon(Polygon),
    Point(Coordinate),
}

impl Footprint {
    pub open spec fn wf(&self) -> bool {
        match self {
            Footprint::Polygon(p) => p.wf(),
            Footprint::Point(c) => c.in_range(),
        }
    }

    /// The footprint after centroid reduction: a polygon collapses to its
    /// centroid, a point stays as it is.
    pub open spec fn reduced(&self) -> Footprint {
        match self {
            Footprint::Polygon(p) => Footprint::Point(centroid_point(p.points@)),
            Footprint::Point(c) => Footprint::Point(*c),
        }
    }

    /// The point standing for this footprint in exclusion tests: the point
    /// itself if reduced, the polygon's centroid otherwise.
    pub open spec fn rep_point(&self) -> Coordinate {
        match self {
            Footprint::Polygon(p) => centroid_point(p.points@),
            Footprint::Point(c) => *c,
        }
    }
}

/// Reducing a footprint twice gives the same point as reducing it once.
pub proof fn lemma_reduce_idempotent(f: Footprint)
    ensures
        f.reduced().reduced() == f.reduced(),
{
}

/// A single building record.
#[derive(Debug)]
pub struct Building {
    /// Identifier of the source map object.
    pub id: i64,
    /// Polygon footprint, or its centroid once reduced.
    pub footprint: Footprint,
    /// Raw key/value tags of the source way.
    pub tags: Vec<(String, String)>,
    /// Number of housenumber points matched inside the footprint.
    pub housenumber_count: usize,
    /// Assigned population; 0 until distribution has run.
    pub population: u64,
}

impl Building {
    pub open spec fn wf(&self) -> bool {
        &&& self.footprint.wf()
        &&& self.housenumber_count <= MAX_HOUSENUMBERS
    }
}

/// A single address point; its tags are kept only for reference and play no
/// part in matching.
#[derive(Debug)]
pub struct Housenumber {
    pub coord: Coordinate,
    pub tags: Vec<(String, String)>,
}

/// A polygon inside which no building receives population, together with
/// the tag value that triggered the exclusion.
#[derive(Debug)]
pub struct ExcludeArea {
    pub polygon: Polygon,
    pub tag: String,
}

impl ExcludeArea {
    pub open spec fn wf(&self) -> bool {
        self.polygon.wf()
    }
}

/// A way as the map-data edge hands it over: identifier, the ordered
/// coordinates of its nodes, and its tags.
#[derive(Debug)]
pub struct RawWay {
    pub id: i64,
    pub coords: Vec<Coordinate>,
    pub tags: Vec<(String, String)>,
}

/// Weighting class a building's `building` tag value puts it in.
#[derive(Clone, Copy, PartialEq, Eq, Structural, Debug)]
pub enum BuildingClass {
    /// Fixed single-household baseline.
    SingleHome,
    /// Full level/housenumber weighting.
    Apartment,
    /// Reduced default weighting.
    Unspecified,
}

/// The class the configuration assigns to this tag list: the `building`
/// value is looked up in the single-home list first, then the apartment
/// list; everything else is unspecified.
pub open spec fn class_of(tags: Seq<(Seq<char>, Seq<char>)>, cfg: Config) -> BuildingClass {
    match tag_value(tags, "building"@) {
        Some(v) => if list_contains(cfg.single_home_list.deep_view(), v) {
            BuildingClass::SingleHome
        } else if list_contains(cfg.apartment_list.deep_view(), v) {
            BuildingClass::Apartment
        } else {
            BuildingClass::Unspecified
        },
        None => BuildingClass::Unspecified,
    }
}

/// Classifies a tag list under the configured class lists.
pub fn classify(tags: &Vec<(String, String)>, cfg: &Config) -> (c: BuildingClass)
    ensures
        c == class_of(tags.deep_view(), *cfg),
{
    match find_tag(tags, "building") {
        Some(v) => {
            if list_contains_exec(&cfg.single_home_list, v) {
                BuildingClass::SingleHome
            } else if list_contains_exec(&cfg.apartment_list, v) {
                BuildingClass::Apartment
            } else {
                BuildingClass::Unspecified
            }
        },
        None => BuildingClass::Unspecified,
    }
}

/// A way is a building candidate when it carries a `building` tag.
pub open spec fn is_building_spec(tags: Seq<(Seq<char>, Seq<char>)>) -> bool {
    tag_value(tags, "building"@) is Some
}

/// Whether a tagged object is a building candidate.
pub fn is_building(tags: &Vec<(String, String)>) -> (r: bool)
    ensures
        r == is_building_spec(tags.deep_view()),
{
    has_tag(tags, "building")
}

/// A node is a housenumber point when it carries an `addr:housenumber` tag.
pub open spec fn is_housenumber_node_spec(tags: Seq<(Seq<char>, Seq<char>)>) -> bool {
    tag_value(tags, "addr:housenumber"@) is Some
}

/// Whether a tagged object is a housenumber point.
pub fn is_housenumber_node(tags: &Vec<(String, String)>) -> (r: bool)
    ensures
        r == is_housenumber_node_spec(tags.deep_view()),
{
    has_tag(tags, "addr:housenumber")
}

/// An object marks an excluded area when its `landuse` value is in the
/// configured landuse list, or any of its tag values is in the configured
/// tag list.
pub open spec fn is_exclude_area_spec(
    tags: Seq<(Seq<char>, Seq<char>)>,
    cfg: Config,
) -> bool {
    ||| match tag_value(tags, "landuse"@) {
        Some(v) => list_contains(cfg.exclude_landuse.deep_view(), v),
        None => false,
    }
    ||| exists|i: int|
        0 <= i < tags.len() && list_contains(cfg.exclude_tags.deep_view(), (#[trigger] tags[i]).1)
}

/// Whether a tagged object marks an excluded area.
pub fn is_exclude_area(tags: &Vec<(String, String)>, cfg: &Config) -> (r: bool)
    ensures
        r == is_exclude_area_spec(tags.deep_view(), *cfg),
{
    match find_tag(tags, "landuse") {
        Some(v) => {
            if list_contains_exec(&cfg.exclude_landuse, v) {
                return true;
            }
        },
        None => {},
    }
    let n = tags.len();
    let mut i: usize = 0;
    while i < n
        invariant
            n == tags@.len(),
            i <= n,
            forall|j: int|
                0 <= j < i ==> !list_contains(
                    cfg.exclude_tags.deep_view(),
                    (#[trigger] tags.deep_view()[j]).1,
                ),
        decreases n - i,
    {
        let pair = &tags[i];
        if list_contains_exec(&cfg.exclude_tags, &pair.1) {
            assert(list_contains(cfg.exclude_tags.deep_view(), tags.deep_view()[i as int].1));
            return true;
        }
        i += 1;
    }
    false
}

/// A ring as stored on a way, with any explicit closing vertex dropped.
pub open spec fn normalize_ring(s: Seq<Coordinate>) -> Seq<Coordinate> {
    if s.len() >= 2 && s[s.len() - 1] == s[0] {
        s.drop_last()
    } else {
        s
    }
}

/// A way yields a building when it is tagged at all and its normalized
/// ring is usable; untagged or degenerate ways are skipped, not errors.
pub open spec fn way_ok(w: RawWay) -> bool {
    &&& w.tags@.len() > 0
    &&& ring_wf(normalize_ring(w.coords@))
}

/// Some way in s carries identifier id.
pub open spec fn ways_has_id(s: Seq<RawWay>, id: i64) -> bool {
    exists|k: int| 0 <= k < s.len() && (#[trigger] s[k]).id == id
}

/// Some building in s carries identifier id.
pub open spec fn seq_has_id(s: Seq<Building>, id: i64) -> bool {
    exists|k: int| 0 <= k < s.len() && (#[trigger] s[k]).id == id
}

/// The ways among the first i of `ways` that yield buildings: usable, and
/// not repeating an already-kept identifier.
pub open spec fn kept_ways(ways: Seq<RawWay>, i: int) -> Seq<RawWay>
    decreases i,
{
    if i <= 0 {
        Seq::empty()
    } else {
        let prev = kept_ways(ways, i - 1);
        let w = ways[i - 1];
        if way_ok(w) && !ways_has_id(prev, w.id) {
            prev.push(w)
        } else {
            prev
        }
    }
}

/// How many of the first j housenumber points lie inside the ring.
pub open spec fn hn_count(ring: Seq<Coordinate>, hns: Seq<Housenumber>, j: int) -> int
    decreases j,
{
    if j <= 0 {
        0
    } else {
        hn_count(ring, hns, j - 1) + if polygon_contains(ring, hns[j - 1].coord) {
            1int
        } else {
            0int
        }
    }
}

/// The building record way w yields, given its matched housenumber count.
pub open spec fn built_from(b: Building, w: RawWay, hn: int) -> bool {
    &&& b.id == w.id
    &&& match b.footprint {
        Footprint::Polygon(p) => p.points@ == normalize_ring(w.coords@),
        Footprint::Point(_) => false,
    }
    &&& b.tags == w.tags
    &&& b.housenumber_count == hn
    &&& b.population == 0
}

/// out is exactly the collection the construction stage yields from these
/// ways and housenumber points: one record per kept way, in order, each
/// with its exact contained-housenumber count.
pub open spec fn built_collection(
    out: Seq<Building>,
    ways: Seq<RawWay>,
    hns: Seq<Housenumber>,
) -> bool {
    &&& out.len() == kept_ways(ways, ways.len() as int).len()
    &&& forall|k: int|
        0 <= k < out.len() ==> built_from(
            #[trigger] out[k],
            kept_ways(ways, ways.len() as int)[k],
            hn_count(
                normalize_ring(kept_ways(ways, ways.len() as int)[k].coords@),
                hns,
                hns.len() as int,
            ),
        )
}

/// b is a, building by building, with every footprint centroid-reduced.
pub open spec fn reduced_collection(a: Seq<Building>, b: Seq<Building>) -> bool {
    &&& b.len() == a.len()
    &&& forall|k: int| 0 <= k < a.len() ==> reduced_building(a[k], #[trigger] b[k])
}

/// The two collections describe the same buildings, record for record.
pub open spec fn like_collection(a: Seq<Building>, b: Seq<Building>) -> bool {
    &&& a.len() == b.len()
    &&& forall|k: int| 0 <= k < a.len() ==> building_like(#[trigger] a[k], b[k])
}

/// Buildings and ways agreeing on identifiers pointwise hold the same
/// identifiers as sets.
proof fn lemma_ids_match(bs: Seq<Building>, ws: Seq<RawWay>, id: i64)
    requires
        bs.len() == ws.len(),
        forall|k: int| 0 <= k < bs.len() ==> (#[trigger] bs[k]).id == ws[k].id,
    ensures
        seq_has_id(bs, id) == ways_has_id(ws, id),
{
    if seq_has_id(bs, id) {
        let k = choose|k: int| 0 <= k < bs.len() && (#[trigger] bs[k]).id == id;
        assert(ws[k].id == id);
    }
    if ways_has_id(ws, id) {
        let k = choose|k: int| 0 <= k < ws.len() && (#[trigger] ws[k]).id == id;
        assert(bs[k].id == id);
    }
}

/// The ordered collection of buildings of one run, in first-seen order and
/// with pairwise distinct identifiers.
#[derive(Debug)]
pub struct Buildings {
    pub inner: Vec<Building>,
}

impl View for Buildings {
    type V = Seq<Building>;

    open spec fn view(&self) -> Seq<Building> {
        self.inner@
    }
}

impl Buildings {
    /// Bounded size, well-formed records, pairwise distinct identifiers.
    pub open spec fn wf(&self) -> bool {
        &&& self@.len() <= MAX_BUILDINGS
        &&& forall|i: int| 0 <= i < self@.len() ==> (#[trigger] self@[i]).wf()
        &&& forall|p: int, q: int|
            0 <= p < q < self@.len() ==> self@[p].id != self@[q].id
    }

    /// Number of buildings in the collection.
    pub fn len(&self) -> (n: usize)
        ensures
            n == self@.len(),
    {
        self.inner.len()
    }

    /// The building at position i.
    pub fn get(&self, i: usize) -> (b: &Building)
        requires
            i < self@.len(),
        ensures
            *b == self@[i as int],
    {
        &self.inner[i]
    }
}

/// The normalized ring of coordinates is usable as a polygon.
fn ring_check(coords: &Vec<Coordinate>) -> (r: bool)
    ensures
        r == ring_wf(coords@),
{
    let n = coords.len();
    if n < 3 || n > crate::geometry::MAX_VERTICES {
        return false;
    }
    let mut i: usize = 0;
    while i < n
        invariant
            n == coords@.len(),
            i <= n,
            forall|j: int| 0 <= j < i ==> (#[trigger] coords@[j]).in_range(),
        decreases n - i,
    {
        let c = coords[i];
        if c.lat < -crate::geometry::COORD_LIMIT || c.lat > crate::geometry::COORD_LIMIT
            || c.lon < -crate::geometry::COORD_LIMIT || c.lon > crate::geometry::COORD_LIMIT {
            return false;
        }
        i += 1;
    }
    true
}

/// Some already-kept building carries this identifier.
fn has_building_id(bs: &Vec<Building>, id: i64) -> (r: bool)
    ensures
        r == seq_has_id(bs@, id),
{
    let n = bs.len();
    let mut i: usize = 0;
    while i < n
        invariant
            n == bs@.len(),
            i <= n,
            forall|j: int| 0 <= j < i ==> (#[trigger] bs@[j]).id != id,
        decreases n - i,
    {
        if bs[i].id == id {
            return true;
        }
        i += 1;
    }
    false
}

impl Buildings {
    /// Builds the collection from raw way data: every way classified as a
    /// building and carrying a usable ring becomes a record, in first-seen
    /// order, and each housenumber point inside its footprint raises its
    /// count. Untagged ways, degenerate rings and repeated identifiers are
    /// skipped.
    pub fn from(ways: Vec<RawWay>, housenumbers: &Vec<Housenumber>, config: &Config) -> (out:
        Buildings)
        requires
            ways@.len() <= MAX_BUILDINGS,
            housenumbers@.len() <= MAX_HOUSENUMBERS,
        ensures
            out.wf(),
            out@.len() == kept_ways(ways@, ways@.len() as int).len(),
            forall|k: int|
                0 <= k < out@.len() ==> built_from(
                    #[trigger] out@[k],
                    kept_ways(ways@, ways@.len() as int)[k],
                    hn_count(
                        normalize_ring(kept_ways(ways@, ways@.len() as int)[k].coords@),
                        housenumbers@,
                        housenumbers@.len() as int,
                    ),
                ),
    {
        let _ = config;
        let ghost ways0 = ways@;
        let mut ways = ways;
        let mut out: Vec<Building> = Vec::new();
        let n = ways.len();
        let mut i: usize = 0;
        while i < n
            invariant
                ways0.len() == n,
                n <= MAX_BUILDINGS,
                housenumbers@.len() <= MAX_HOUSENUMBERS,
                i <= n,
                ways@ == ways0.skip(i as int),
                out@.len() == kept_ways(ways0, i as int).len(),
                out@.len() <= i,
                forall|k: int|
                    0 <= k < out@.len() ==> built_from(
                        #[trigger] out@[k],
                        kept_ways(ways0, i as int)[k],
                        hn_count(
                            normalize_ring(kept_ways(ways0, i as int)[k].coords@),
                            housenumbers@,
                            housenumbers@.len() as int,
                        ),
                    ),
                forall|k: int| 0 <= k < out@.len() ==> (#[trigger] out@[k]).wf(),
                forall|p: int, q: int|
                    0 <= p < q < out@.len() ==> out@[p].id != out@[q].id,
            decreases n - i,
        {
            let w = ways.remove(0);
            proof {
                assert(w == ways0[i as int]);
                assert(ways@ =~= ways0.skip(i as int + 1));
            }
            let ghost wspec = ways0[i as int];
            let RawWay { id, coords, tags } = w;
            let mut coords = coords;
            if coords.len() >= 2 {
                let c0 = coords[0];
                let cl = coords[coords.len() - 1];
                if c0.lat == cl.lat && c0.lon == cl.lon {
                    proof {
                        assert(wspec.coords@[wspec.coords@.len() - 1] == wspec.coords@[0]);
                    }
                    coords.pop();
                    proof {
                        assert(coords@ =~= normalize_ring(wspec.coords@));
                    }
                }
            }
            proof {
                assert(coords@ == normalize_ring(wspec.coords@));
            }
            let ok_tags = tags.len() > 0;
            let ok_ring = ring_check(&coords);
            let dup = has_building_id(&out, id);
            proof {
                assert(forall|k: int|
                    0 <= k < out@.len() ==> (#[trigger] out@[k]).id == kept_ways(
                        ways0,
                        i as int,
                    )[k].id);
                lemma_ids_match(out@, kept_ways(ways0, i as int), id);
            }
            if ok_tags && ok_ring && !dup {
                let poly = Polygon { points: coords };
                let m = housenumbers.len();
                let mut cnt: usize = 0;
                let mut j: usize = 0;
                while j < m
                    invariant
                        m == housenumbers@.len(),
                        j <= m,
                        poly.wf(),
                        cnt == hn_count(poly.points@, housenumbers@, j as int),
                        cnt <= j,
                    decreases m - j,
                {
                    let hn = &housenumbers[j];
                    if contains(&poly, &hn.coord) {
                        cnt += 1;
                    }
                    j += 1;
                }
                let b = Building {
                    id,
                    footprint: Footprint::Polygon(poly),
                    tags,
                    housenumber_count: cnt,
                    population: 0,
                };
                out.push(b);
            }
            i += 1;
        }
        Buildings { inner: out }
    }
}

/// r is b with its footprint centroid-reduced and all else unchanged.
pub open spec fn reduced_building(b: Building, r: Building) -> bool {
    &&& r.id == b.id
    &&& r.footprint == b.footprint.reduced()
    &&& r.tags == b.tags
    &&& r.housenumber_count == b.housenumber_count
    &&& r.population == b.population
}

/// The two footprints describe the same geometry.
pub open spec fn footprint_like(a: Footprint, b: Footprint) -> bool {
    match (a, b) {
        (Footprint::Polygon(p), Footprint::Polygon(q)) => p.points@ == q.points@,
        (Footprint::Point(c), Footprint::Point(d)) => c == d,
        _ => false,
    }
}

/// The two records describe the same building.
pub open spec fn building_like(a: Building, b: Building) -> bool {
    &&& a.id == b.id
    &&& footprint_like(a.footprint, b.footprint)
    &&& a.tags@ == b.tags@
    &&& a.housenumber_count == b.housenumber_count
    &&& a.population == b.population
}

/// The point rep lies inside at least one of the exclusion areas.
pub open spec fn point_excluded(rep: Coordinate, areas: Seq<ExcludeArea>) -> bool {
    exists|k: int|
        0 <= k < areas.len() && polygon_contains((#[trigger] areas[k]).polygon.points@, rep)
}

/// The building's representative point lies inside some exclusion area, so
/// the building is dropped. Membership in any single area suffices: the
/// areas act as a union, never as an intersection.
pub open spec fn excluded(b: Building, areas: Seq<ExcludeArea>) -> bool {
    point_excluded(b.footprint.rep_point(), areas)
}

/// A building contained in any one exclusion area is excluded, whatever
/// the other areas say: exclusion is the union of the areas.
pub proof fn lemma_exclusion_union(b: Building, areas: Seq<ExcludeArea>, k: int)
    requires
        0 <= k < areas.len(),
        polygon_contains(areas[k].polygon.points@, b.footprint.rep_point()),
    ensures
        excluded(b, areas),
{
}

/// The buildings among the first i of s that no exclusion area contains,
/// in their original order.
pub open spec fn exclude_filter(
    s: Seq<Building>,
    areas: Seq<ExcludeArea>,
    i: int,
) -> Seq<Building>
    decreases i,
{
    if i <= 0 {
        Seq::empty()
    } else {
        let prev = exclude_filter(s, areas, i - 1);
        if !excluded(s[i - 1], areas) {
            prev.push(s[i - 1])
        } else {
            prev
        }
    }
}

/// Geometrically equal buildings are excluded by the same areas.
proof fn lemma_like_excluded(a: Building, b: Building, areas: Seq<ExcludeArea>)
    requires
        building_like(a, b),
    ensures
        excluded(a, areas) == excluded(b, areas),
{
    assert(a.footprint.rep_point() == b.footprint.rep_point());
}

/// Collections describing the same buildings are filtered alike.
pub proof fn lemma_filter_like(
    s1: Seq<Building>,
    s2: Seq<Building>,
    areas: Seq<ExcludeArea>,
    i: int,
)
    requires
        like_collection(s1, s2),
        0 <= i <= s1.len(),
    ensures
        like_collection(
            exclude_filter(s1, areas, i),
            exclude_filter(s2, areas, i),
        ),
    decreases i,
{
    if i > 0 {
        lemma_filter_like(s1, s2, areas, i - 1);
        assert(building_like(s1[i - 1], s2[i - 1]));
        lemma_like_excluded(s1[i - 1], s2[i - 1], areas);
        let p1 = exclude_filter(s1, areas, i - 1);
        let p2 = exclude_filter(s2, areas, i - 1);
        if !excluded(s1[i - 1], areas) {
            assert forall|k: int| 0 <= k < p1.push(s1[i - 1]).len() implies building_like(
                #[trigger] p1.push(s1[i - 1])[k],
                p2.push(s2[i - 1])[k],
            ) by {
                if k < p1.len() {
                    assert(building_like(p1[k], p2[k]));
                }
            }
        }
    }
}

/// Copies a tag list, value for value.
fn clone_tags(tags: &Vec<(String, String)>) -> (r: Vec<(String, String)>)
    ensures
        r@ == tags@,
{
    let n = tags.len();
    let mut out: Vec<(String, String)> = Vec::new();
    let mut i: usize = 0;
    while i < n
        invariant
            n == tags@.len(),
            i <= n,
            out@ == tags@.take(i as int),
        decreases n - i,
    {
        let p = &tags[i];
        out.push((p.0.clone(), p.1.clone()));
        proof {
            assert(tags@.take(i as int).push(tags@[i as int]) =~= tags@.take(i as int + 1));
        }
        i += 1;
    }
    proof {
        assert(tags@.take(n as int) =~= tags@);
    }
    out
}

/// Copies a coordinate list.
fn clone_coords(v: &Vec<Coordinate>) -> (r: Vec<Coordinate>)
    ensures
        r@ == v@,
{
    let n = v.len();
    let mut out: Vec<Coordinate> = Vec::new();
    let mut i: usize = 0;
    while i < n
        invariant
            n == v@.len(),
            i <= n,
            out@ == v@.take(i as int),
        decreases n - i,
    {
        out.push(v[i]);
        proof {
            assert(v@.take(i as int).push(v@[i as int]) =~= v@.take(i as int + 1));
        }
        i += 1;
    }
    proof {
        assert(v@.take(n as int) =~= v@);
    }
    out
}

/// Copies a building record.
fn duplicate_building(b: &Building) -> (r: Building)
    ensures
        building_like(r, *b),
{
    let footprint = match &b.footprint {
        Footprint::Polygon(p) => Footprint::Polygon(Polygon { points: clone_coords(&p.points) }),
        Footprint::Point(c) => Footprint::Point(*c),
    };
    Building {
        id: b.id,
        footprint,
        tags: clone_tags(&b.tags),
        housenumber_count: b.housenumber_count,
        population: b.population,
    }
}

/// The representative point lies inside some area of the list.
fn point_excluded_exec(rep: Coordinate, areas: &Vec<ExcludeArea>) -> (r: bool)
    requires
        forall|k: int| 0 <= k < areas@.len() ==> (#[trigger] areas@[k]).wf(),
    ensures
        r == point_excluded(rep, areas@),
{
    let n = areas.len();
    let mut k: usize = 0;
    while k < n
        invariant
            n == areas@.len(),
            k <= n,
            forall|j: int| 0 <= j < n ==> (#[trigger] areas@[j]).wf(),
            forall|j: int|
                0 <= j < k ==> !polygon_contains((#[trigger] areas@[j]).polygon.points@, rep),
        decreases n - k,
    {
        let area = &areas[k];
        if contains(&area.polygon, &rep) {
            return true;
        }
        k += 1;
    }
    false
}

impl Buildings {
    /// Replaces every polygon footprint by its centroid point. Calling this
    /// twice leaves the collection exactly as after the first call: reducing
    /// an already reduced footprint is a no-op.
    pub fn centroid(&mut self)
        requires
            old(self).wf(),
        ensures
            final(self).wf(),
            final(self)@.len() == old(self)@.len(),
            forall|k: int|
                0 <= k < old(self)@.len() ==> reduced_building(
                    old(self)@[k],
                    #[trigger] final(self)@[k],
                ),
    {
        let ghost orig = self@;
        let n = self.inner.len();
        let mut k: usize = 0;
        while k < n
            invariant
                n == orig.len(),
                self@.len() == n,
                k <= n,
                forall|j: int| 0 <= j < orig.len() ==> (#[trigger] orig[j]).wf(),
                forall|j: int|
                    0 <= j < k ==> reduced_building(orig[j], #[trigger] self@[j]),
                forall|j: int| k <= j < n ==> #[trigger] self@[j] == orig[j],
            decreases n - k,
        {
            let c_opt: Option<Coordinate> = match &self.inner[k].footprint {
                Footprint::Polygon(p) => Some(centroid(p)),
                Footprint::Point(_) => None,
            };
            if let Some(c) = c_opt {
                self.inner[k].footprint = Footprint::Point(c);
            }
            k += 1;
        }
    }

    /// A new collection holding only the buildings whose representative
    /// point no exclusion area contains; a building inside any area is
    /// dropped entirely.
    pub fn exclude_in(&self, areas: &Vec<ExcludeArea>) -> (out: Buildings)
        requires
            self.wf(),
            forall|k: int| 0 <= k < areas@.len() ==> (#[trigger] areas@[k]).wf(),
        ensures
            out.wf(),
            out@.len() == exclude_filter(self@, areas@, self@.len() as int).len(),
            forall|k: int|
                0 <= k < out@.len() ==> building_like(
                    #[trigger] out@[k],
                    exclude_filter(self@, areas@, self@.len() as int)[k],
                ),
            forall|k: int| 0 <= k < out@.len() ==> !excluded(#[trigger] out@[k], areas@),
            forall|k: int|
                0 <= k < out@.len() ==> exists|j: int|
                    0 <= j < self@.len() && building_like(#[trigger] out@[k], self@[j]),
    {
        let n = self.inner.len();
        let mut out: Vec<Building> = Vec::new();
        let mut i: usize = 0;
        while i < n
            invariant
                self.wf(),
                n == self@.len(),
                i <= n,
                forall|k: int| 0 <= k < areas@.len() ==> (#[trigger] areas@[k]).wf(),
                out@.len() == exclude_filter(self@, areas@, i as int).len(),
                out@.len() <= i,
                forall|k: int|
                    0 <= k < out@.len() ==> building_like(
                        #[trigger] out@[k],
                        exclude_filter(self@, areas@, i as int)[k],
                    ),
                forall|k: int| 0 <= k < out@.len() ==> !excluded(#[trigger] out@[k], areas@),
                forall|k: int| 0 <= k < out@.len() ==> (#[trigger] out@[k]).wf(),
                forall|p: int, q: int|
                    0 <= p < q < out@.len() ==> out@[p].id != out@[q].id,
                forall|p: int|
                    0 <= p < out@.len() ==> exists|j: int|
                        0 <= j < i && building_like(#[trigger] out@[p], self@[j]),
            decreases n - i,
        {
            let b = &self.inner[i];
            let rep: Coordinate = match &b.footprint {
                Footprint::Polygon(p) => centroid(p),
                Footprint::Point(c) => *c,
            };
            assert(rep == self@[i as int].footprint.rep_point());
            if !point_excluded_exec(rep, areas) {
                let dup = duplicate_building(b);
                proof {
                    lemma_like_excluded(dup, self@[i as int], areas@);
                    assert forall|p: int| 0 <= p < out@.len() implies out@[p].id
                        != self@[i as int].id by {
                        let j = choose|j: int|
                            0 <= j < i && building_like(#[trigger] out@[p], self@[j]);
                    }
                }
                out.push(dup);
                proof {
                    assert(exists|j: int|
                        0 <= j < i + 1 && building_like(
                            #[trigger] out@[out@.len() - 1],
                            self@[j],
                        )) by {
                        assert(building_like(out@[out@.len() - 1], self@[i as int]));
                    }
                }
            }
            i += 1;
        }
        Buildings { inner: out }
    }
}

/// A way yields an exclusion area when its normalized ring is usable.
pub open spec fn area_way_ok(w: RawWay) -> bool {
    ring_wf(normalize_ring(w.coords@))
}

/// The ways among the first i of `ways` whose ring is usable as an area.
pub open spec fn kept_area_ways(ways: Seq<RawWay>, i: int) -> Seq<RawWay>
    decreases i,
{
    if i <= 0 {
        Seq::empty()
    } else {
        let prev = kept_area_ways(ways, i - 1);
        if area_way_ok(ways[i - 1]) {
            prev.push(ways[i - 1])
        } else {
            prev
        }
    }
}

/// The tag recorded on an exclusion area: its landuse value, if any.
pub open spec fn area_tag_of(w: RawWay) -> Seq<char> {
    match tag_value(w.tags.deep_view(), "landuse"@) {
        Some(v) => v,
        None => Seq::empty(),
    }
}

/// Turns raw ways into exclusion areas, skipping degenerate rings; each
/// area records the way's landuse value as the triggering tag.
pub fn exclude_areas_from_ways(ways: Vec<RawWay>) -> (out: Vec<ExcludeArea>)
    ensures
        out@.len() == kept_area_ways(ways@, ways@.len() as int).len(),
        forall|k: int| 0 <= k < out@.len() ==> (#[trigger] out@[k]).wf(),
        forall|k: int|
            0 <= k < out@.len() ==> (#[trigger] out@[k]).polygon.points@ == normalize_ring(
                kept_area_ways(ways@, ways@.len() as int)[k].coords@,
            ) && out@[k].tag@ == area_tag_of(kept_area_ways(ways@, ways@.len() as int)[k]),
{
    let ghost ways0 = ways@;
    let mut ways = ways;
    let mut out: Vec<ExcludeArea> = Vec::new();
    let n = ways.len();
    let mut i: usize = 0;
    while i < n
        invariant
            ways0.len() == n,
            i <= n,
            ways@ == ways0.skip(i as int),
            out@.len() == kept_area_ways(ways0, i as int).len(),
            forall|k: int| 0 <= k < out@.len() ==> (#[trigger] out@[k]).wf(),
            forall|k: int|
                0 <= k < out@.len() ==> (#[trigger] out@[k]).polygon.points@ == normalize_ring(
                    kept_area_ways(ways0, i as int)[k].coords@,
                ) && out@[k].tag@ == area_tag_of(kept_area_ways(ways0, i as int)[k]),
        decreases n - i,
    {
        let w = ways.remove(0);
        proof {
            assert(w == ways0[i as int]);
            assert(ways@ =~= ways0.skip(i as int + 1));
        }
        let ghost wspec = ways0[i as int];
        let RawWay { id, coords, tags } = w;
        let _ = id;
        let mut coords = coords;
        if coords.len() >= 2 {
            let c0 = coords[0];
            let cl = coords[coords.len() - 1];
            if c0.lat == cl.lat && c0.lon == cl.lon {
                proof {
                    assert(wspec.coords@[wspec.coords@.len() - 1] == wspec.coords@[0]);
                }
                coords.pop();
                proof {
                    assert(coords@ =~= normalize_ring(wspec.coords@));
                }
            }
        }
        proof {
            assert(coords@ == normalize_ring(wspec.coords@));
        }
        if ring_check(&coords) {
            let tag: String = match find_tag(&tags, "landuse") {
                Some(v) => v.clone(),
                None => String::new(),
            };
            out.push(ExcludeArea { polygon: Polygon { points: coords }, tag });
        }
        i += 1;
    }
    out
}

} // verus!
