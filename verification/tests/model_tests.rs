use openhousepopulator::buildings::{
    exclude_areas_from_ways, Buildings, ExcludeArea, Footprint, Housenumber, RawWay,
};
use openhousepopulator::geometry::{Coordinate, Polygon};
use openhousepopulator::parser::parse_levels;
use openhousepopulator::Config;

fn c(lat: i64, lon: i64) -> Coordinate {
    Coordinate { lat, lon }
}

fn tag(k: &str, v: &str) -> (String, String) {
    (k.to_string(), v.to_string())
}

fn config() -> Config {
    Config {
        level_threshold: 10,
        reroll_threshold: 0,
        reroll_probability: 0,
        level_factor: 1,
        housenumber_factor: 1,
        request_url: String::new(),
        exclude_landuse: vec!["industrial".to_string()],
        exclude_tags: vec!["construction".to_string()],
        single_home_list: vec!["house".to_string()],
        apartment_list: vec!["apartments".to_string()],
        unspecified_list: vec!["yes".to_string()],
    }
}

fn square_way(id: i64, base_lat: i64, base_lon: i64, tags: Vec<(String, String)>) -> RawWay {
    RawWay {
        id,
        coords: vec![
            c(base_lat, base_lon),
            c(base_lat, base_lon + 100),
            c(base_lat + 100, base_lon + 100),
            c(base_lat + 100, base_lon),
        ],
        tags,
    }
}

#[test]
fn from_keeps_tagged_ways_with_usable_rings() {
    let ways = vec![
        square_way(1, 0, 0, vec![tag("building", "house")]),
        square_way(2, 0, 200, vec![tag("building", "yes")]),
    ];
    let hns: Vec<Housenumber> = Vec::new();
    let b = Buildings::from(ways, &hns, &config());
    assert_eq!(b.len(), 2);
    assert_eq!(b.get(0).id, 1);
    assert_eq!(b.get(1).id, 2);
    assert_eq!(b.get(0).population, 0);
}

#[test]
fn from_skips_untagged_and_degenerate_ways() {
    let ways = vec![
        square_way(1, 0, 0, vec![]),
        RawWay { id: 2, coords: vec![c(0, 0), c(0, 100)], tags: vec![tag("building", "yes")] },
        square_way(3, 0, 0, vec![tag("building", "yes")]),
    ];
    let hns: Vec<Housenumber> = Vec::new();
    let b = Buildings::from(ways, &hns, &config());
    assert_eq!(b.len(), 1);
    assert_eq!(b.get(0).id, 3);
}

#[test]
fn from_skips_duplicate_identifiers() {
    let ways = vec![
        square_way(7, 0, 0, vec![tag("building", "yes")]),
        square_way(7, 0, 200, vec![tag("building", "yes")]),
    ];
    let hns: Vec<Housenumber> = Vec::new();
    let b = Buildings::from(ways, &hns, &config());
    assert_eq!(b.len(), 1);
}

#[test]
fn from_drops_explicit_closing_vertex() {
    let w = RawWay {
        id: 1,
        coords: vec![c(0, 0), c(0, 100), c(100, 100), c(100, 0), c(0, 0)],
        tags: vec![tag("building", "yes")],
    };
    let hns: Vec<Housenumber> = Vec::new();
    let b = Buildings::from(vec![w], &hns, &config());
    assert_eq!(b.len(), 1);
    match &b.get(0).footprint {
        Footprint::Polygon(p) => assert_eq!(p.points.len(), 4),
        Footprint::Point(_) => panic!("footprint should still be a polygon"),
    }
}

#[test]
fn housenumbers_are_counted_per_building() {
    let ways = vec![
        square_way(1, 0, 0, vec![tag("building", "yes")]),
        square_way(2, 0, 200, vec![tag("building", "yes")]),
    ];
    let hns = vec![
        Housenumber { coord: c(50, 50), tags: vec![tag("addr:housenumber", "1")] },
        Housenumber { coord: c(20, 30), tags: vec![tag("addr:housenumber", "2")] },
        Housenumber { coord: c(50, 250), tags: vec![tag("addr:housenumber", "3")] },
        Housenumber { coord: c(500, 500), tags: vec![tag("addr:housenumber", "4")] },
    ];
    let b = Buildings::from(ways, &hns, &config());
    assert_eq!(b.get(0).housenumber_count, 2);
    assert_eq!(b.get(1).housenumber_count, 1);
}

#[test]
fn centroid_reduction_replaces_polygons_by_points() {
    let ways = vec![square_way(1, 0, 0, vec![tag("building", "yes")])];
    let hns: Vec<Housenumber> = Vec::new();
    let mut b = Buildings::from(ways, &hns, &config());
    b.centroid();
    match &b.get(0).footprint {
        Footprint::Point(p) => {
            assert_eq!(p.lat, 50);
            assert_eq!(p.lon, 50);
        },
        Footprint::Polygon(_) => panic!("footprint should be reduced"),
    }
}

#[test]
fn centroid_reduction_is_idempotent() {
    let ways = vec![
        square_way(1, 0, 0, vec![tag("building", "yes")]),
        square_way(2, 300, 300, vec![tag("building", "yes")]),
    ];
    let hns: Vec<Housenumber> = Vec::new();
    let mut once = Buildings::from(ways, &hns, &config());
    once.centroid();
    let first: Vec<(i64, i64)> = (0..once.len())
        .map(|i| match &once.get(i).footprint {
            Footprint::Point(p) => (p.lat, p.lon),
            Footprint::Polygon(_) => panic!("not reduced"),
        })
        .collect();
    once.centroid();
    let second: Vec<(i64, i64)> = (0..once.len())
        .map(|i| match &once.get(i).footprint {
            Footprint::Point(p) => (p.lat, p.lon),
            Footprint::Polygon(_) => panic!("not reduced"),
        })
        .collect();
    assert_eq!(first, second);
}

#[test]
fn exclusion_drops_building_inside_any_area() {
    // Building 1 sits inside area A and outside area B: union semantics
    // drop it anyway. Building 2 is outside both and survives.
    let ways = vec![
        square_way(1, 0, 0, vec![tag("building", "yes")]),
        square_way(2, 1000, 1000, vec![tag("building", "yes")]),
    ];
    let hns: Vec<Housenumber> = Vec::new();
    let b = Buildings::from(ways, &hns, &config());
    let area_a = ExcludeArea {
        polygon: Polygon {
            points: vec![c(-10, -10), c(-10, 210), c(210, 210), c(210, -10)],
        },
        tag: "industrial".to_string(),
    };
    let area_b = ExcludeArea {
        polygon: Polygon {
            points: vec![c(5000, 5000), c(5000, 5100), c(5100, 5100), c(5100, 5000)],
        },
        tag: "industrial".to_string(),
    };
    let kept = b.exclude_in(&vec![area_a, area_b]);
    assert_eq!(kept.len(), 1);
    assert_eq!(kept.get(0).id, 2);
}

#[test]
fn exclusion_with_no_matching_area_keeps_everything() {
    let ways = vec![square_way(1, 0, 0, vec![tag("building", "yes")])];
    let hns: Vec<Housenumber> = Vec::new();
    let b = Buildings::from(ways, &hns, &config());
    let far = ExcludeArea {
        polygon: Polygon {
            points: vec![c(5000, 5000), c(5000, 5100), c(5100, 5100), c(5100, 5000)],
        },
        tag: "industrial".to_string(),
    };
    let kept = b.exclude_in(&vec![far]);
    assert_eq!(kept.len(), 1);
}

#[test]
fn exclude_areas_from_ways_skips_degenerate_rings() {
    let ways = vec![
        RawWay {
            id: 1,
            coords: vec![c(0, 0), c(0, 100)],
            tags: vec![tag("landuse", "industrial")],
        },
        RawWay {
            id: 2,
            coords: vec![c(0, 0), c(0, 100), c(100, 100), c(100, 0), c(0, 0)],
            tags: vec![tag("landuse", "industrial")],
        },
    ];
    let areas = exclude_areas_from_ways(ways);
    assert_eq!(areas.len(), 1);
    assert_eq!(areas[0].polygon.points.len(), 4);
    assert_eq!(areas[0].tag, "industrial");
}

#[test]
fn parse_levels_reads_plain_numbers() {
    assert_eq!(parse_levels("3"), 3);
    assert_eq!(parse_levels("12"), 12);
    assert_eq!(parse_levels("0"), 0);
}

#[test]
fn parse_levels_defaults_malformed_values_to_zero() {
    assert_eq!(parse_levels(""), 0);
    assert_eq!(parse_levels("abc"), 0);
    assert_eq!(parse_levels("2.5"), 0);
    assert_eq!(parse_levels("-3"), 0);
}

#[test]
fn parse_levels_saturates_on_huge_values() {
    assert_eq!(parse_levels("99999999999999999999"), 10_000_000);
}
