use openhousepopulator::buildings::{Buildings, ExcludeArea, Housenumber, RawWay};
use openhousepopulator::distribution::building_weight;
use openhousepopulator::geometry::{Coordinate, Polygon};
use openhousepopulator::populate;
use openhousepopulator::rng::SeededRng;
use openhousepopulator::Config;

fn c(lat: i64, lon: i64) -> Coordinate {
    Coordinate { lat, lon }
}

fn tag(k: &str, v: &str) -> (String, String) {
    (k.to_string(), v.to_string())
}

fn config() -> Config {
    Config {
        level_threshold: 10,
        reroll_threshold: 0,
        reroll_probability: 0,
        level_factor: 2,
        housenumber_factor: 1,
        request_url: String::new(),
        exclude_landuse: vec!["industrial".to_string()],
        exclude_tags: vec!["construction".to_string()],
        single_home_list: vec!["house".to_string()],
        apartment_list: vec!["apartments".to_string()],
        unspecified_list: vec!["yes".to_string()],
    }
}

fn square_way(id: i64, base_lat: i64, base_lon: i64, tags: Vec<(String, String)>) -> RawWay {
    RawWay {
        id,
        coords: vec![
            c(base_lat, base_lon),
            c(base_lat, base_lon + 100),
            c(base_lat + 100, base_lon + 100),
            c(base_lat + 100, base_lon),
        ],
        tags,
    }
}

fn populations(b: &Buildings) -> Vec<u64> {
    (0..b.len()).map(|i| b.get(i).population).collect()
}

#[test]
fn single_home_weight_is_one() {
    let ways = vec![square_way(
        1,
        0,
        0,
        vec![tag("building", "house"), tag("building:levels", "5")],
    )];
    let hns: Vec<Housenumber> = Vec::new();
    let b = Buildings::from(ways, &hns, &config());
    assert_eq!(building_weight(b.get(0), &config()), 1);
}

#[test]
fn apartment_weight_counts_levels_and_housenumbers() {
    let ways = vec![square_way(
        1,
        0,
        0,
        vec![tag("building", "apartments"), tag("building:levels", "3")],
    )];
    let hns = vec![
        Housenumber { coord: c(50, 50), tags: vec![] },
        Housenumber { coord: c(20, 30), tags: vec![] },
    ];
    let b = Buildings::from(ways, &hns, &config());
    // levels 3 * factor 2 + housenumbers 2 * factor 1 = 8
    assert_eq!(building_weight(b.get(0), &config()), 8);
}

#[test]
fn unspecified_class_weighs_at_half_strength() {
    let ways = vec![square_way(
        1,
        0,
        0,
        vec![tag("building", "yes"), tag("building:levels", "3")],
    )];
    let hns: Vec<Housenumber> = Vec::new();
    let b = Buildings::from(ways, &hns, &config());
    // levels 3 * factor 2 = 6, halved to 3
    assert_eq!(building_weight(b.get(0), &config()), 3);
}

#[test]
fn zero_weight_is_raised_to_one() {
    let ways = vec![square_way(1, 0, 0, vec![tag("building", "yes")])];
    let hns: Vec<Housenumber> = Vec::new();
    let b = Buildings::from(ways, &hns, &config());
    assert_eq!(building_weight(b.get(0), &config()), 1);
}

#[test]
fn levels_above_threshold_weigh_as_the_threshold() {
    // One building declares exactly the threshold, the other five levels
    // more: the clamp makes their weights identical.
    let at = vec![square_way(
        1,
        0,
        0,
        vec![tag("building", "apartments"), tag("building:levels", "10")],
    )];
    let over = vec![square_way(
        1,
        0,
        0,
        vec![tag("building", "apartments"), tag("building:levels", "15")],
    )];
    let hns: Vec<Housenumber> = Vec::new();
    let b_at = Buildings::from(at, &hns, &config());
    let b_over = Buildings::from(over, &hns, &config());
    assert_eq!(
        building_weight(b_at.get(0), &config()),
        building_weight(b_over.get(0), &config()),
    );
}

#[test]
fn more_levels_never_weigh_less() {
    let hns: Vec<Housenumber> = Vec::new();
    let mut previous = 0u64;
    for levels in 1..=10 {
        let ways = vec![square_way(
            1,
            0,
            0,
            vec![
                tag("building", "apartments"),
                tag("building:levels", &levels.to_string()),
            ],
        )];
        let b = Buildings::from(ways, &hns, &config());
        let w = building_weight(b.get(0), &config());
        assert!(w >= previous);
        previous = w;
    }
}

#[test]
fn proportional_allocation_of_example_scenario() {
    // Weights [1, 2, 1] and a total of 8: floors are [2, 4, 2], the
    // remainder is 0, and the counts sum to 8 exactly.
    let ways = vec![
        square_way(1, 0, 0, vec![tag("building", "house")]),
        square_way(
            2,
            0,
            200,
            vec![tag("building", "apartments"), tag("building:levels", "1")],
        ),
        square_way(3, 0, 400, vec![tag("building", "house")]),
    ];
    let hns: Vec<Housenumber> = Vec::new();
    let mut b = Buildings::from(ways, &hns, &config());
    let mut rng = SeededRng::new(1);
    b.distribute_population(8, &config(), &mut rng);
    assert_eq!(populations(&b), vec![2, 4, 2]);
}

#[test]
fn distribution_conserves_the_total() {
    let ways = vec![
        square_way(1, 0, 0, vec![tag("building", "house")]),
        square_way(
            2,
            0,
            200,
            vec![tag("building", "apartments"), tag("building:levels", "3")],
        ),
        square_way(3, 0, 400, vec![tag("building", "yes"), tag("building:levels", "4")]),
        square_way(4, 0, 600, vec![tag("building", "house")]),
    ];
    let hns = vec![Housenumber { coord: c(50, 250), tags: vec![] }];
    let mut b = Buildings::from(ways, &hns, &config());
    let mut rng = SeededRng::new(99);
    b.distribute_population(1000, &config(), &mut rng);
    let total: u64 = populations(&b).iter().sum();
    assert_eq!(total, 1000);
}

#[test]
fn distribution_conserves_under_rerolls() {
    let mut cfg = config();
    cfg.reroll_threshold = 1000;
    cfg.reroll_probability = 100;
    let ways = vec![
        square_way(1, 0, 0, vec![tag("building", "house")]),
        square_way(2, 0, 200, vec![tag("building", "house")]),
        square_way(3, 0, 400, vec![tag("building", "house")]),
    ];
    let hns: Vec<Housenumber> = Vec::new();
    let mut b = Buildings::from(ways, &hns, &cfg);
    let mut rng = SeededRng::new(7);
    // Weights [1, 1, 1], total 10: floors [3, 3, 3], one unit remains and
    // is drawn (and, below the threshold, redrawn) at random.
    b.distribute_population(10, &cfg, &mut rng);
    let pops = populations(&b);
    let total: u64 = pops.iter().sum();
    assert_eq!(total, 10);
    for p in &pops {
        assert!(*p >= 3);
    }
}

#[test]
fn distribution_of_zero_inhabitants_gives_zero_everywhere() {
    let ways = vec![
        square_way(1, 0, 0, vec![tag("building", "house")]),
        square_way(2, 0, 200, vec![tag("building", "house")]),
    ];
    let hns: Vec<Housenumber> = Vec::new();
    let mut b = Buildings::from(ways, &hns, &config());
    let mut rng = SeededRng::new(5);
    b.distribute_population(0, &config(), &mut rng);
    assert_eq!(populations(&b), vec![0, 0]);
}

#[test]
fn distribution_is_deterministic_under_a_seed() {
    let make = || {
        let ways = vec![
            square_way(1, 0, 0, vec![tag("building", "house")]),
            square_way(
                2,
                0,
                200,
                vec![tag("building", "apartments"), tag("building:levels", "2")],
            ),
            square_way(3, 0, 400, vec![tag("building", "yes"), tag("building:levels", "1")]),
        ];
        let hns: Vec<Housenumber> = Vec::new();
        Buildings::from(ways, &hns, &config())
    };
    let mut first = make();
    let mut second = make();
    let mut rng1 = SeededRng::new(1234);
    let mut rng2 = SeededRng::new(1234);
    first.distribute_population(777, &config(), &mut rng1);
    second.distribute_population(777, &config(), &mut rng2);
    assert_eq!(populations(&first), populations(&second));
}

#[test]
fn rng_is_deterministic_and_moves() {
    let mut a = SeededRng::new(42);
    let mut b = SeededRng::new(42);
    let x1 = a.next();
    let x2 = a.next();
    assert_eq!(x1, b.next());
    assert_eq!(x2, b.next());
    assert_ne!(x1, x2);
}

#[test]
fn populate_runs_the_whole_pipeline() {
    let ways = vec![
        square_way(1, 0, 0, vec![tag("building", "house")]),
        square_way(
            2,
            0,
            200,
            vec![tag("building", "apartments"), tag("building:levels", "2")],
        ),
        square_way(3, 0, 400, vec![tag("building", "house")]),
    ];
    let hns = vec![Housenumber { coord: c(50, 250), tags: vec![] }];
    let areas = vec![ExcludeArea {
        polygon: Polygon {
            points: vec![c(-10, 390), c(-10, 510), c(110, 510), c(110, 390)],
        },
        tag: "industrial".to_string(),
    }];
    let mut rng = SeededRng::new(3);
    let out = populate(ways, &hns, &areas, 60, true, &config(), &mut rng);
    // Building 3 lies in the excluded area; the other two survive.
    assert_eq!(out.len(), 2);
    let total: u64 = (0..out.len()).map(|i| out.get(i).population).sum();
    assert_eq!(total, 60);
}
