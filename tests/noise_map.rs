use firma::noise_map::{NoiseMap, OCTAVE_SPREAD};
use firma::{MapError, Vector2D, UNIT};

fn grid(cols: &[&[i64]]) -> Vec<Vec<i64>> {
    cols.iter().map(|c| c.to_vec()).collect()
}

#[test]
fn new_has_default_configuration() {
    let m = NoiseMap::new(3, 2);
    assert_eq!(m.width, 3);
    assert_eq!(m.height, 2);
    assert_eq!(m.map, vec![vec![0u32; 2]; 3]);
    assert_eq!(m.scale, 100);
    assert_eq!(m.octaves, 4);
    assert_eq!(m.persistance, 500_000);
    assert_eq!(m.lacunarity, 2_000_000);
    assert_eq!(m.offset, Vector2D { x: 0, y: 0 });
    assert_eq!(m.seed, None);
}

#[test]
fn builders_set_their_fields() {
    let m = NoiseMap::new(1, 1)
        .scale(5_000_000)
        .octaves(1)
        .persistance(250_000)
        .lacunarity(3_000_000)
        .offset(-4, 9)
        .seed(42);
    assert_eq!(m.scale, 5_000_000);
    assert_eq!(m.octaves, 1);
    assert_eq!(m.persistance, 250_000);
    assert_eq!(m.lacunarity, 3_000_000);
    assert_eq!(m.offset, Vector2D { x: -4, y: 9 });
    assert_eq!(m.seed, Some(42));
}

#[test]
fn build_rejects_zero_scale() {
    let raw = grid(&[&[1, 2], &[3, 4]]);
    let r = NoiseMap::new(2, 2).scale(0).build(&raw);
    assert_eq!(r.err(), Some(MapError::InvalidScale));
}

#[test]
fn build_rejects_negative_scale() {
    let raw = grid(&[&[1, 2], &[3, 4]]);
    let r = NoiseMap::new(2, 2).scale(-1).build(&raw);
    assert_eq!(r.err(), Some(MapError::InvalidScale));
}

#[test]
fn build_rejects_raw_field_of_other_extent() {
    let raw = grid(&[&[1, 2], &[3]]);
    let r = NoiseMap::new(2, 2).build(&raw);
    assert_eq!(r.err(), Some(MapError::DimensionMismatch));
}

#[test]
fn build_normalizes_between_least_and_greatest() {
    let raw = grid(&[&[-10, 10], &[0, 30]]);
    let m = NoiseMap::new(2, 2).build(&raw).unwrap();
    assert_eq!(m.map, vec![vec![0, 500_000], vec![250_000, UNIT]]);
}

#[test]
fn build_rounds_down() {
    let raw = grid(&[&[0, 1, 3]]);
    let m = NoiseMap::new(1, 3).build(&raw).unwrap();
    assert_eq!(m.map, vec![vec![0, 333_333, UNIT]]);
}

#[test]
fn build_of_flat_field_is_all_zero() {
    let raw = grid(&[&[7, 7], &[7, 7]]);
    let m = NoiseMap::new(2, 2).octaves(0).build(&raw).unwrap();
    assert_eq!(m.map, vec![vec![0, 0], vec![0, 0]]);
}

#[test]
fn build_of_empty_grid_succeeds() {
    let m = NoiseMap::new(0, 0).build(&Vec::new()).unwrap();
    assert!(m.map.is_empty());
}

#[test]
fn build_keeps_every_cell_in_unit_range() {
    let raw = grid(&[&[i64::MIN, -5, 0], &[3, i64::MAX, 12]]);
    let m = NoiseMap::new(2, 3).build(&raw).unwrap();
    assert_eq!(m.map[0][0], 0);
    assert_eq!(m.map[1][1], UNIT);
    for col in &m.map {
        for &v in col {
            assert!(v <= UNIT);
        }
    }
}

#[test]
fn build_is_deterministic() {
    let raw = grid(&[&[3, -1, 8], &[5, 5, 0]]);
    let a = NoiseMap::new(2, 3).seed(42).build(&raw).unwrap();
    let b = NoiseMap::new(2, 3).seed(42).build(&raw).unwrap();
    assert_eq!(a.map, b.map);
}

#[test]
fn resolve_seed_keeps_an_explicit_seed() {
    assert_eq!(NoiseMap::new(1, 1).seed(42).resolve_seed(), 42);
}

#[test]
fn octave_offsets_lie_around_the_offset() {
    let m = NoiseMap::new(1, 1).octaves(6).offset(1000, -2000);
    let offs = m.octave_offsets(7);
    assert_eq!(offs.len(), 6);
    let spread = OCTAVE_SPREAD as i64;
    for o in &offs {
        assert!(1000 - spread <= o.x && o.x < 1000 + spread);
        assert!(-2000 - spread <= o.y && o.y < -2000 + spread);
    }
    assert!(offs.iter().any(|o| o.x != 1000 - spread));
}

#[test]
fn octave_offsets_repeat_for_one_seed() {
    let m = NoiseMap::new(1, 1).octaves(5);
    assert_eq!(m.octave_offsets(42), m.octave_offsets(42));
}

#[test]
fn octave_offsets_of_zero_octaves_are_empty() {
    assert!(NoiseMap::new(1, 1).octaves(0).octave_offsets(1).is_empty());
}

#[test]
fn unseeded_build_succeeds_in_unit_range() {
    let m = NoiseMap::new(2, 2).octaves(2);
    let seed = m.resolve_seed();
    let offs = m.octave_offsets(seed);
    assert_eq!(offs.len(), 2);
    let raw = grid(&[&[offs[0].x, offs[0].y], &[offs[1].x, offs[1].y]]);
    let built = m.build(&raw).unwrap();
    for col in &built.map {
        for &v in col {
            assert!(v <= UNIT);
        }
    }
}
