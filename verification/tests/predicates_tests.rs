use openhousepopulator::buildings::{
    is_building, is_exclude_area, is_housenumber_node, Housenumber, RawWay,
};
use openhousepopulator::parser::find_tag;
use openhousepopulator::populate;
use openhousepopulator::rng::SeededRng;
use openhousepopulator::Config;

fn tag(k: &str, v: &str) -> (String, String) {
    (k.to_string(), v.to_string())
}

fn config() -> Config {
    Config {
        level_threshold: 10,
        reroll_threshold: 0,
        reroll_probability: 0,
        level_factor: 2,
        housenumber_factor: 1,
        request_url: String::new(),
        exclude_landuse: vec!["industrial".to_string(), "cemetery".to_string()],
        exclude_tags: vec!["construction".to_string()],
        single_home_list: vec!["house".to_string()],
        apartment_list: vec!["apartments".to_string()],
        unspecified_list: vec!["yes".to_string()],
    }
}

#[test]
fn building_predicate_looks_for_the_building_key() {
    assert!(is_building(&vec![tag("building", "yes")]));
    assert!(is_building(&vec![tag("name", "town hall"), tag("building", "civic")]));
    assert!(!is_building(&vec![tag("landuse", "industrial")]));
    assert!(!is_building(&vec![]));
}

#[test]
fn housenumber_predicate_looks_for_the_addr_key() {
    assert!(is_housenumber_node(&vec![tag("addr:housenumber", "12a")]));
    assert!(!is_housenumber_node(&vec![tag("addr:street", "High Street")]));
}

#[test]
fn exclude_predicate_matches_landuse_values() {
    let cfg = config();
    assert!(is_exclude_area(&vec![tag("landuse", "industrial")], &cfg));
    assert!(is_exclude_area(&vec![tag("landuse", "cemetery")], &cfg));
    assert!(!is_exclude_area(&vec![tag("landuse", "residential")], &cfg));
}

#[test]
fn exclude_predicate_matches_any_listed_tag_value() {
    let cfg = config();
    assert!(is_exclude_area(&vec![tag("building", "construction")], &cfg));
    assert!(!is_exclude_area(&vec![tag("building", "yes")], &cfg));
}

#[test]
fn find_tag_returns_the_first_match() {
    let tags = vec![tag("a", "1"), tag("b", "2"), tag("a", "3")];
    assert_eq!(find_tag(&tags, "a").map(|s| s.as_str()), Some("1"));
    assert_eq!(find_tag(&tags, "b").map(|s| s.as_str()), Some("2"));
    assert!(find_tag(&tags, "c").is_none());
}

#[test]
fn populate_with_no_buildings_returns_an_empty_collection() {
    let ways: Vec<RawWay> = Vec::new();
    let hns: Vec<Housenumber> = Vec::new();
    let mut rng = SeededRng::new(0);
    let out = populate(ways, &hns, &Vec::new(), 100, false, &config(), &mut rng);
    assert_eq!(out.len(), 0);
}
