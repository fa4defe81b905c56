use firma::color_map::{ColorMap, Rule, Terrain};
use firma::noise_map::NoiseMap;
use firma::MapError;
use std::cmp::Ordering;

fn bands() -> ColorMap {
    let mut cm = ColorMap::new(2, 1);
    cm.add(Terrain::new("grass", 1_000_000, 3));
    cm.add(Terrain::new("water", 300_000, 2));
    cm.add(Terrain::new("dirt", 500_000, 1));
    cm
}

#[test]
fn terrain_new_is_a_threshold_band() {
    let t = Terrain::new("water", 250_000, 2);
    assert_eq!(t.name, "water");
    assert_eq!(t.rule, Rule::Threshold(250_000));
    assert_eq!(t.color_index, 2);
}

#[test]
fn terrain_matches_by_its_rule() {
    let t = Terrain::new("water", 300_000, 2);
    assert!(t.matches(299_999));
    assert!(!t.matches(300_000));
    let r = Terrain::range("dirt", 2, 4, 1);
    assert!(!r.matches(1));
    assert!(r.matches(2));
    assert!(r.matches(4));
    assert!(!r.matches(5));
}

#[test]
fn terrains_are_equal_by_name() {
    assert!(Terrain::new("dirt", 1, 1) == Terrain::range("dirt", 5, 6, 9));
    assert!(Terrain::new("dirt", 1, 1) != Terrain::new("sand", 1, 1));
}

#[test]
fn terrains_are_ordered_by_key() {
    let a = Terrain::new("a", 10, 1);
    let b = Terrain::new("b", 20, 1);
    assert_eq!(a.partial_cmp(&b), Some(Ordering::Less));
    assert_eq!(b.partial_cmp(&a), Some(Ordering::Greater));
    assert_eq!(a.partial_cmp(&Terrain::range("c", 10, 12, 1)), Some(Ordering::Equal));
}

#[test]
fn color_map_new_is_empty_and_unassigned() {
    let cm = ColorMap::new(3, 2);
    assert!(cm.colors.is_empty());
    assert_eq!(cm.map, vec![vec![0u8; 2]; 3]);
}

#[test]
fn add_keeps_bands_sorted_and_stable() {
    let mut cm = bands();
    cm.add(Terrain::new("mud", 500_000, 4));
    let names: Vec<&str> = cm.colors.iter().map(|t| t.name.as_str()).collect();
    assert_eq!(names, vec!["water", "dirt", "mud", "grass"]);
}

#[test]
fn threshold_classification_picks_first_band_above() {
    let cm = bands();
    assert_eq!(cm.color_for_height(0), 2);
    assert_eq!(cm.color_for_height(400_000), 1);
    assert_eq!(cm.color_for_height(950_000), 3);
    assert_eq!(cm.color_for_height(1_000_000), 0);
}

#[test]
fn apply_noise_map_resolves_each_cell() {
    let mut cm = bands();
    let mut nm = NoiseMap::new(2, 1);
    nm.map = vec![vec![400_000], vec![950_000]];
    assert_eq!(cm.apply_noise_map(&nm), Ok(()));
    assert_eq!(cm.map, vec![vec![1], vec![3]]);
}

#[test]
fn apply_noise_map_flags_uncovered_height() {
    let mut cm = bands();
    let mut nm = NoiseMap::new(2, 1);
    nm.map = vec![vec![400_000], vec![1_000_000]];
    assert_eq!(cm.apply_noise_map(&nm), Err(MapError::Uncovered { x: 1, y: 0 }));
    assert_eq!(cm.map, vec![vec![1], vec![0]]);
}

#[test]
fn apply_noise_map_names_the_first_gap() {
    let mut cm = ColorMap::new(2, 2);
    cm.add(Terrain::new("low", 500_000, 1));
    let mut nm = NoiseMap::new(2, 2);
    nm.map = vec![vec![0, 0], vec![600_000, 700_000]];
    assert_eq!(cm.apply_noise_map(&nm), Err(MapError::Uncovered { x: 1, y: 0 }));
}

#[test]
fn apply_noise_map_rejects_other_extent() {
    let mut cm = bands();
    let nm = NoiseMap::new(3, 1);
    assert_eq!(cm.apply_noise_map(&nm), Err(MapError::DimensionMismatch));
}

#[test]
fn classify_finds_the_level_band() {
    let mut cm = ColorMap::new(1, 1);
    cm.add(Terrain::range("grass", 3, 10, 3));
    cm.add(Terrain::range("dirt", 0, 2, 1));
    cm.add(Terrain::new("water", 999_999, 2));
    assert_eq!(cm.classify(0), Some(1));
    assert_eq!(cm.classify(2), Some(1));
    assert_eq!(cm.classify(3), Some(3));
    assert_eq!(cm.classify(10), Some(3));
    assert_eq!(cm.classify(11), None);
}

fn one_cell(height: u32) -> (ColorMap, Result<(), MapError>) {
    let mut cm = ColorMap::new(1, 1);
    cm.add(Terrain::new("water", 300_000, 1));
    cm.add(Terrain::new("dirt", 500_000, 2));
    cm.add(Terrain::new("grass", 1_000_000, 3));
    let mut nm = NoiseMap::new(1, 1);
    nm.map[0][0] = height;
    let r = cm.apply_noise_map(&nm);
    (cm, r)
}

#[test]
fn fresh_map_resolves_dirt() {
    let (cm, r) = one_cell(400_000);
    assert_eq!(r, Ok(()));
    assert_eq!(cm.map[0][0], 2);
}

#[test]
fn fresh_map_resolves_grass() {
    let (cm, r) = one_cell(950_000);
    assert_eq!(r, Ok(()));
    assert_eq!(cm.map[0][0], 3);
}

#[test]
fn fresh_map_flags_height_one_as_uncovered() {
    let (cm, r) = one_cell(1_000_000);
    assert_eq!(r, Err(MapError::Uncovered { x: 0, y: 0 }));
    assert_eq!(cm.map[0][0], 0);
}

#[test]
fn applying_twice_changes_nothing_more() {
    let mut cm = bands();
    let mut nm = NoiseMap::new(2, 1);
    nm.map = vec![vec![100_000], vec![1_000_000]];
    let first = cm.apply_noise_map(&nm);
    let after_first = cm.map.clone();
    let second = cm.apply_noise_map(&nm);
    assert_eq!(first, second);
    assert_eq!(cm.map, after_first);
}
