use create_vox::Model;
use firma::color_map::{ColorMap, Terrain};
use firma::mesh_map::MeshMap;
use firma::noise_map::NoiseMap;
use firma::{MapError, UNIT};
use noise::{NoiseFn, OpenSimplex, Seedable};

fn levels(w: u32, top: u64) -> ColorMap {
    let mut cm = ColorMap::new(w, 1);
    cm.add(Terrain::range("dirt", 0, 0, 1));
    cm.add(Terrain::range("grass", 1, top, 3));
    cm
}

fn flat_noise(w: u32, h: u32) -> NoiseMap {
    NoiseMap::new(w, h)
}

#[test]
fn mesh_new_is_unbuilt() {
    let m = MeshMap::new(2, 3);
    assert_eq!(m.zscale, UNIT as u64);
    assert_eq!(m.ground, 0);
    assert!(m.color_map.is_none());
    assert!(m.noise_map.is_none());
    assert_eq!(m.map, vec![vec![0u64; 3]; 2]);
}

#[test]
fn mesh_builders_set_their_fields() {
    let nm = flat_noise(1, 1);
    let cm = levels(1, 5);
    let m = MeshMap::new(1, 1).zscale(7).ground(3).color(&cm).noise(&nm);
    assert_eq!(m.zscale, 7);
    assert_eq!(m.ground, 3);
    assert!(m.color_map.is_some());
    assert!(m.noise_map.is_some());
}

#[test]
fn build_needs_color_map() {
    let nm = flat_noise(1, 1);
    let r = MeshMap::new(1, 1).noise(&nm).build(|_h: u32| 0);
    assert_eq!(r.err(), Some(MapError::MissingColorMap));
}

#[test]
fn build_needs_noise_map() {
    let cm = levels(1, 5);
    let r = MeshMap::new(1, 1).color(&cm).build(|_h: u32| 0);
    assert_eq!(r.err(), Some(MapError::MissingNoiseMap));
}

#[test]
fn build_rejects_other_extent() {
    let nm = flat_noise(2, 1);
    let cm = levels(1, 5);
    let r = MeshMap::new(1, 1).color(&cm).noise(&nm).build(|_h: u32| 0);
    assert_eq!(r.err(), Some(MapError::DimensionMismatch));
}

#[test]
fn build_scales_the_curve_and_adds_ground() {
    let mut nm = flat_noise(2, 1);
    nm.map = vec![vec![100], vec![200]];
    let cm = ColorMap::new(2, 1);
    let m = MeshMap::new(2, 1)
        .zscale(2_500_000)
        .ground(4)
        .color(&cm)
        .noise(&nm)
        .build(|h: u32| h * 5_000)
        .unwrap();
    // 500_000 * 2.5 = 1.25 -> 1; 1_000_000 * 2.5 = 2.5 -> 2
    assert_eq!(m.map, vec![vec![5], vec![6]]);
}

#[test]
fn column_from_ground_twenty_to_twenty_five_has_six_voxels() {
    let nm = flat_noise(1, 1);
    let cm = levels(1, 10);
    let m = MeshMap::new(1, 1)
        .zscale(5 * UNIT as u64)
        .ground(20)
        .color(&cm)
        .noise(&nm)
        .build(|_h: u32| UNIT)
        .unwrap();
    assert_eq!(m.map, vec![vec![25]]);
    let mut model = Model::new(4, 4, 40);
    assert_eq!(m.render(&mut model), Ok(()));
    assert_eq!(model.num_of_voxels(), 6);
    for z in 20..=25u8 {
        assert!(model.is_voxel_at_pos(0, 0, z));
    }
    assert!(!model.is_voxel_at_pos(0, 0, 19));
    assert!(!model.is_voxel_at_pos(0, 0, 26));
}

#[test]
fn render_rejects_voxel_above_the_model() {
    let nm = flat_noise(2, 1);
    let cm = levels(2, 10);
    let m = MeshMap::new(2, 1)
        .zscale(3 * UNIT as u64)
        .ground(2)
        .color(&cm)
        .noise(&nm)
        .build(|_h: u32| UNIT)
        .unwrap();
    // columns reach z = 5; a depth of 5 holds z up to 4
    let mut model = Model::new(4, 4, 5);
    assert_eq!(m.render(&mut model), Err(MapError::Rejected { x: 0, y: 0, z: 5 }));
    assert_eq!(model.num_of_voxels(), 0);
}

#[test]
fn render_keeps_voxels_emitted_before_a_rejection() {
    let mut nm = flat_noise(2, 1);
    nm.map = vec![vec![0], vec![UNIT]];
    let cm = levels(2, 10);
    let m = MeshMap::new(2, 1)
        .zscale(UNIT as u64)
        .ground(2)
        .color(&cm)
        .noise(&nm)
        .build(|h: u32| h * 3)
        .unwrap();
    assert_eq!(m.map, vec![vec![2], vec![5]]);
    let mut model = Model::new(4, 4, 5);
    assert_eq!(m.render(&mut model), Err(MapError::Rejected { x: 1, y: 0, z: 5 }));
    assert_eq!(model.num_of_voxels(), 1);
    assert!(model.is_voxel_at_pos(0, 0, 2));
}

#[test]
fn render_stops_at_unclassified_level() {
    let nm = flat_noise(1, 1);
    let mut cm = ColorMap::new(1, 1);
    cm.add(Terrain::range("grass", 2, 9, 3));
    let m = MeshMap::new(1, 1)
        .zscale(4 * UNIT as u64)
        .ground(1)
        .color(&cm)
        .noise(&nm)
        .build(|_h: u32| UNIT)
        .unwrap();
    let mut model = Model::new(4, 4, 20);
    assert_eq!(m.render(&mut model), Err(MapError::Unclassified { x: 0, y: 0, level: 1 }));
    // levels 4, 3 and 2 above ground were emitted before level 1 failed
    assert_eq!(model.num_of_voxels(), 3);
}

fn sample(nm: &NoiseMap, seed: u32) -> Vec<Vec<i64>> {
    let unit = UNIT as f64;
    let noise = OpenSimplex::new().set_seed(seed);
    let offsets = nm.octave_offsets(seed);
    let scale = nm.scale as f64 / unit;
    let mut raw = vec![vec![0i64; nm.height as usize]; nm.width as usize];
    for x in 0..nm.width {
        for y in 0..nm.height {
            let (mut amplitude, mut frequency, mut sum) = (1.0, 1.0, 0.0);
            for o in &offsets {
                let sx = (x as i64 + o.x) as f64 / scale * frequency;
                let sy = (y as i64 + o.y) as f64 / scale * frequency;
                sum += noise.get([sx, sy]) * amplitude;
                amplitude *= nm.persistance as f64 / unit;
                frequency *= nm.lacunarity as f64 / unit;
            }
            raw[x as usize][y as usize] = (sum * unit) as i64;
        }
    }
    raw
}

fn curve(h: u32) -> u32 {
    let x = h as f64 / UNIT as f64;
    ((1.0 + ((x - 1.0) * 4.5).exp()).ln() * UNIT as f64) as u32
}

#[test]
fn end_to_end_landscape_has_a_ground_voxel_in_every_column() {
    let config = NoiseMap::new(10, 10)
        .scale(5 * UNIT as i64)
        .octaves(1)
        .persistance(500_000)
        .lacunarity(2 * UNIT as i64)
        .seed(42);
    let raw = sample(&config, 42);
    let nm = config.build(&raw).unwrap();
    let mut cm = ColorMap::new(10, 10);
    cm.add(Terrain::new("low", 500_000, 1));
    cm.add(Terrain::new("high", UNIT + 1, 2));
    cm.add(Terrain::range("soil", 0, 2, 1));
    cm.add(Terrain::range("grass", 3, 255, 2));
    assert_eq!(cm.apply_noise_map(&nm), Ok(()));
    let mesh = MeshMap::new(10, 10)
        .zscale(10 * UNIT as u64)
        .ground(5)
        .color(&cm)
        .noise(&nm)
        .build(curve)
        .unwrap();
    let mut model = Model::new(10, 10, 40);
    assert_eq!(mesh.render(&mut model), Ok(()));
    let mut columns = 0;
    for x in 0..10u8 {
        for y in 0..10u8 {
            assert!(model.is_voxel_at_pos(x, y, 5));
            columns += 1;
        }
    }
    assert_eq!(columns, 100);
    let total: u64 = mesh.map.iter().flatten().map(|z| z - 5 + 1).sum();
    assert_eq!(model.num_of_voxels() as u64, total);
}
