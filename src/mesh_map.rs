use vstd::prelude::*;
use create_vox::{Model, Voxel};
use crate::color_map::{level_color, lemma_level_color_nonzero, ColorMap, Terrain};
use crate::noise_map::{has_extent, NoiseMap};
use crate::{is_grid, MapError, UNIT};

verus! {

#[verifier::external_type_specification]
#[verifier::external_body]
pub struct ExModel(create_vox::Model);

/// The voxels a model holds, in the order they were added, as
/// `(x, y, z, colour)`.
pub uninterp spec fn model_voxels(m: Model) -> Seq<(u8, u8, u8, u8)>;

/// The size of a model along each axis.
pub uninterp spec fn model_extent(m: Model) -> (u16, u16, u16);

/// Relies on create_vox's `Voxel::new` (which panics on colour 0) and
/// `Model::add_voxel`, which refuses a voxel lying outside the model's size,
/// leaving the model as it was, and otherwise appends it. Its bounds test
/// computes `coordinate + 1` in `u8`, so coordinates of 255 are excluded.
#[verifier::external_body]
fn add_voxel(model: &mut Model, x: u8, y: u8, z: u8, color: u8) -> (r: bool)
    requires
        color >= 1,
        x < 255,
        y < 255,
        z < 255,
    ensures
        model_extent(*final(model)) == model_extent(*old(model)),
        r == (x + 1 <= model_extent(*old(model)).0 && y + 1 <= model_extent(*old(model)).1 && z + 1
            <= model_extent(*old(model)).2),
        r ==> model_voxels(*final(model)) == model_voxels(*old(model)).push((x, y, z, color)),
        !r ==> model_voxels(*final(model)) == model_voxels(*old(model)),
{
    model.add_voxel(Voxel::new(x, y, z, color)).is_ok()
}

/// The top of a column: `ground` plus the curve response `c` (fixed point)
/// times `zscale` (fixed point), rounded down.
pub open spec fn column_top(ground: int, zscale: int, c: int) -> int {
    ground + c * zscale / (UNIT * UNIT)
}

/// `top` is the column top that `curve` gives for height `h`.
pub open spec fn shaped_by<F: Fn(u32) -> u32>(curve: F, h: u32, top: int, ground: int, zscale: int) -> bool {
    exists|c: u32| curve.ensures((h,), c) && top == column_top(ground, zscale, c as int)
}

/// One voxel position `(x, y, z)` of a render.
pub type Step = (int, int, int);

/// The voxels of the column at `(x, y)`, from its top `z` down to `ground`.
pub open spec fn column_steps(x: int, y: int, z: int, ground: int) -> Seq<Step> {
    Seq::new((z - ground + 1) as nat, |i: int| (x, y, z - i))
}

/// The voxels of the first `n` columns of row `y`.
pub open spec fn row_steps(map: Seq<Vec<u64>>, ground: int, y: int, n: int) -> Seq<Step>
    decreases n,
{
    if n <= 0 {
        seq![]
    } else {
        row_steps(map, ground, y, n - 1) + column_steps(n - 1, y, map[n - 1]@[y] as int, ground)
    }
}

/// The voxels of the first `n` rows of a grid `w` columns wide, in render order.
pub open spec fn grid_steps(map: Seq<Vec<u64>>, ground: int, w: int, n: int) -> Seq<Step>
    decreases n,
{
    if n <= 0 {
        seq![]
    } else {
        grid_steps(map, ground, w, n - 1) + row_steps(map, ground, n - 1, w)
    }
}

/// The colour of the voxel at step `s`: its level above ground, classified.
pub open spec fn step_color(colors: Seq<Terrain>, ground: int, s: Step) -> Option<u8> {
    level_color(colors, s.2 - ground)
}

/// A model of size `ext` takes a voxel at step `s`.
pub open spec fn fits(ext: (u16, u16, u16), s: Step) -> bool {
    &&& 0 <= s.0 < 255 && 0 <= s.1 < 255 && 0 <= s.2 < 255
    &&& s.0 + 1 <= ext.0 && s.1 + 1 <= ext.1 && s.2 + 1 <= ext.2
}

/// Step `s` is classified and taken by the model.
pub open spec fn step_ok(colors: Seq<Terrain>, ground: int, ext: (u16, u16, u16), s: Step) -> bool {
    step_color(colors, ground, s) is Some && fits(ext, s)
}

/// The voxel emitted at step `s`.
pub open spec fn voxel_of(colors: Seq<Terrain>, ground: int, s: Step) -> (u8, u8, u8, u8) {
    (s.0 as u8, s.1 as u8, s.2 as u8, step_color(colors, ground, s)->0)
}

/// The error that step `s` fails with.
pub open spec fn step_error(colors: Seq<Terrain>, ground: int, s: Step) -> MapError {
    if step_color(colors, ground, s) is None {
        MapError::Unclassified { x: s.0 as u32, y: s.1 as u32, level: (s.2 - ground) as u64 }
    } else {
        MapError::Rejected { x: s.0 as u32, y: s.1 as u32, z: s.2 as u64 }
    }
}

/// `a` is a prefix of `b`.
pub open spec fn leads(a: Seq<Step>, b: Seq<Step>) -> bool {
    a.len() <= b.len() && forall|i: int| 0 <= i < a.len() ==> a[i] == b[i]
}

proof fn lemma_row_leads(map: Seq<Vec<u64>>, ground: int, y: int, n: int, m: int)
    requires
        0 <= n <= m,
    ensures
        leads(row_steps(map, ground, y, n), row_steps(map, ground, y, m)),
    decreases m - n,
{
    if n < m {
        lemma_row_leads(map, ground, y, n, m - 1);
        let a = row_steps(map, ground, y, n);
        let b = row_steps(map, ground, y, m - 1);
        let c = row_steps(map, ground, y, m);
        assert(c == b + column_steps(m - 1, y, map[m - 1]@[y] as int, ground));
        assert forall|i: int| 0 <= i < a.len() implies a[i] == c[i] by {
            assert(c[i] == b[i]);
        }
    }
}

proof fn lemma_grid_leads(map: Seq<Vec<u64>>, ground: int, w: int, n: int, m: int)
    requires
        0 <= n <= m,
    ensures
        leads(grid_steps(map, ground, w, n), grid_steps(map, ground, w, m)),
    decreases m - n,
{
    if n < m {
        lemma_grid_leads(map, ground, w, n, m - 1);
        let a = grid_steps(map, ground, w, n);
        let b = grid_steps(map, ground, w, m - 1);
        let c = grid_steps(map, ground, w, m);
        assert(c == b + row_steps(map, ground, m - 1, w));
        assert forall|i: int| 0 <= i < a.len() implies a[i] == c[i] by {
            assert(c[i] == b[i]);
        }
    }
}

/// The voxels emitted for the steps `s`.
pub open spec fn emitted(colors: Seq<Terrain>, ground: int, s: Seq<Step>) -> Seq<(u8, u8, u8, u8)> {
    s.map_values(|t: Step| voxel_of(colors, ground, t))
}

/// Every step of `s` succeeds.
pub open spec fn all_ok(colors: Seq<Terrain>, ground: int, ext: (u16, u16, u16), s: Seq<Step>) -> bool {
    forall|i: int| 0 <= i < s.len() ==> #[trigger] step_ok(colors, ground, ext, s[i])
}

/// The prefix of the render ending with the voxel at `(x, y, z - i)` leads the
/// whole render.
proof fn lemma_next_step(map: Seq<Vec<u64>>, g: int, w: int, h: int, x: int, y: int, z: int, i: int)
    requires
        is_grid(map, w, h),
        0 <= x < w,
        0 <= y < h,
        z == map[x]@[y],
        g <= z,
        0 <= i <= z - g,
    ensures
        leads(
            (grid_steps(map, g, w, y) + row_steps(map, g, y, x) + column_steps(x, y, z, g).take(
                i,
            )).push((x, y, z - i)),
            grid_steps(map, g, w, h),
        ),
{
    let col = column_steps(x, y, z, g);
    let pre = grid_steps(map, g, w, y) + row_steps(map, g, y, x);
    let a = (pre + col.take(i)).push((x, y, z - i));
    assert(a =~= pre + col.take(i + 1));
    assert(row_steps(map, g, y, x + 1) == row_steps(map, g, y, x) + col);
    lemma_row_leads(map, g, y, x + 1, w);
    lemma_grid_leads(map, g, w, y + 1, h);
    let b = grid_steps(map, g, w, y) + row_steps(map, g, y, x + 1);
    let c = grid_steps(map, g, w, y + 1);
    let d = grid_steps(map, g, w, h);
    assert(c == grid_steps(map, g, w, y) + row_steps(map, g, y, w));
    assert forall|k: int| 0 <= k < a.len() implies a[k] == d[k] by {
        let gy = grid_steps(map, g, w, y);
        if k < gy.len() {
            assert(a[k] == gy[k]);
            assert(c[k] == gy[k]);
        } else {
            assert(a[k] == (row_steps(map, g, y, x) + col)[k - gy.len()]);
            assert(row_steps(map, g, y, x + 1)[k - gy.len()] == row_steps(map, g, y, w)[k - gy.len()]);
            assert(c[k] == row_steps(map, g, y, w)[k - gy.len()]);
        }
        assert(c[k] == d[k]);
    }
}

/// Emits the voxel at `(x, y, zp)`, coloured by the level band containing
/// `zp - ground`, into `model`.
fn emit(model: &mut Model, color_map: &ColorMap, x: u32, y: u32, zp: u64, ground: u64) -> (r: Result<
    (),
    MapError,
>)
    requires
        color_map.wf(),
        ground <= zp,
    ensures
        model_extent(*final(model)) == model_extent(*old(model)),
        r is Ok == step_ok(
            color_map.colors@,
            ground as int,
            model_extent(*old(model)),
            (x as int, y as int, zp as int),
        ),
        r is Ok ==> model_voxels(*final(model)) == model_voxels(*old(model)).push(
            voxel_of(color_map.colors@, ground as int, (x as int, y as int, zp as int)),
        ),
        r matches Err(e) ==> model_voxels(*final(model)) == model_voxels(*old(model)) && e
            == step_error(color_map.colors@, ground as int, (x as int, y as int, zp as int)),
{
    let level = zp - ground;
    let c = color_map.classify(level);
    proof {
        lemma_level_color_nonzero(color_map.colors@, level as int);
    }
    match c {
        None => Err(MapError::Unclassified { x, y, level }),
        Some(ci) => {
            if x >= 255 || y >= 255 || zp >= 255 {
                Err(MapError::Rejected { x, y, z: zp })
            } else if add_voxel(model, x as u8, y as u8, zp as u8, ci) {
                Ok(())
            } else {
                Err(MapError::Rejected { x, y, z: zp })
            }
        },
    }
}

/// A column whose top is `z` emits exactly one voxel for each level from
/// `ground` to `z` inclusive, top first, each at its own level.
pub proof fn lemma_column_levels(x: int, y: int, z: int, ground: int)
    requires
        ground <= z,
    ensures
        column_steps(x, y, z, ground).len() == z - ground + 1,
        forall|i: int|
            0 <= i <= z - ground ==> #[trigger] column_steps(x, y, z, ground)[i] == (x, y, z - i),
        forall|level: int|
            ground <= level <= z ==> column_steps(x, y, z, ground).contains((x, y, level)),
{
    let col = column_steps(x, y, z, ground);
    assert forall|level: int| ground <= level <= z implies col.contains((x, y, level)) by {
        assert(col[z - level] == (x, y, level));
    }
}

/// Every level from ground to the top of every column is a step of the render.
pub proof fn lemma_steps_cover_columns(map: Seq<Vec<u64>>, g: int, w: int, h: int, x: int, y: int, level: int)
    requires
        is_grid(map, w, h),
        0 <= x < w,
        0 <= y < h,
        g <= level <= map[x]@[y],
    ensures
        grid_steps(map, g, w, h).contains((x, y, level)),
{
    let z = map[x]@[y] as int;
    let col = column_steps(x, y, z, g);
    lemma_column_levels(x, y, z, g);
    let ci = z - level;
    assert(col[ci] == (x, y, level));
    let r0 = row_steps(map, g, y, x);
    let r1 = row_steps(map, g, y, x + 1);
    assert(r1 == r0 + col);
    let ri = r0.len() + ci;
    assert(r1[ri] == (x, y, level));
    lemma_row_leads(map, g, y, x + 1, w);
    let rw = row_steps(map, g, y, w);
    assert(rw[ri] == (x, y, level));
    let g0 = grid_steps(map, g, w, y);
    let g1 = grid_steps(map, g, w, y + 1);
    assert(g1 == g0 + rw);
    let gi = g0.len() + ri;
    assert(g1[gi] == (x, y, level));
    lemma_grid_leads(map, g, w, y + 1, h);
    assert(grid_steps(map, g, w, h)[gi] == (x, y, level));
}

/// After a successful render of a built mesh, the model holds a voxel at every
/// level of every column, from ground (included) to the column's top, each
/// coloured by its own level above ground.
pub proof fn lemma_render_fills_columns(
    m: MeshMap,
    colors: Seq<Terrain>,
    before: Seq<(u8, u8, u8, u8)>,
    after: Seq<(u8, u8, u8, u8)>,
    x: int,
    y: int,
    level: int,
)
    requires
        m.wf(),
        after == before + emitted(colors, m.ground as int, m.steps()),
        0 <= x < m.width,
        0 <= y < m.height,
        m.ground <= level <= m.map@[x]@[y],
    ensures
        after.contains(voxel_of(colors, m.ground as int, (x, y, level))),
{
    let g = m.ground as int;
    lemma_steps_cover_columns(m.map@, g, m.width as int, m.height as int, x, y, level);
    let k = choose|k: int| 0 <= k < m.steps().len() && m.steps()[k] == (x, y, level);
    assert(after[before.len() + k] == voxel_of(colors, g, (x, y, level)));
}

/// A refused voxel whose `x` and `y` lie inside the model, and none of whose
/// coordinates is 255, lies at or above the model's depth.
pub proof fn lemma_rejection_is_too_deep(colors: Seq<Terrain>, ground: int, ext: (u16, u16, u16), s: Step)
    requires
        !step_ok(colors, ground, ext, s),
        step_error(colors, ground, s) is Rejected,
        0 <= s.0 < 255 && 0 <= s.1 < 255 && 0 <= s.2 < 255,
        s.0 + 1 <= ext.0,
        s.1 + 1 <= ext.1,
    ensures
        s.2 >= ext.2,
{
}

/// A mesh of voxel columns over a `width` x `height` grid, extruded from a
/// noise map and coloured by the level bands of a colour map; both maps are
/// borrowed and must outlive the mesh.
pub struct MeshMap<'a> {
    pub width: u32,
    pub height: u32,
    /// Height multiplier, fixed point.
    pub zscale: u64,
    /// The level every column starts from.
    pub ground: u8,
    /// Column tops, indexed `map[x][y]`.
    pub map: Vec<Vec<u64>>,
    /// Classifies each level of a column by its height above ground.
    pub color_map: Option<&'a ColorMap>,
    /// The normalised heights the columns rise from.
    pub noise_map: Option<&'a NoiseMap>,
}

impl<'a> MeshMap<'a> {
    /// A built mesh: both maps are present and every column top is a `width` x `height` grid at or above ground.
    pub open spec fn wf(&self) -> bool {
        &&& self.color_map is Some
        &&& self.noise_map is Some
        &&& is_grid(self.map@, self.width as int, self.height as int)
        &&& forall|x: int, y: int|
            0 <= x < self.width && 0 <= y < self.height ==> self.ground <= #[trigger] self.map@[x]@[y]
    }

    /// An unbuilt mesh over a `width` x `height` grid, with unit height scale,
    /// ground 0 and neither map.
    pub fn new(width: u32, height: u32) -> (r: MeshMap<'a>)
        ensures
            r.width == width,
            r.height == height,
            r.zscale == UNIT,
            r.ground == 0,
            r.color_map is None,
            r.noise_map is None,
            is_grid(r.map@, width as int, height as int),
    {
        MeshMap {
            width,
            height,
            zscale: UNIT as u64,
            ground: 0,
            map: crate::noise_map::zero_grid(width, height, 0u64),
            color_map: None,
            noise_map: None,
        }
    }

    /// Sets the height multiplier, fixed point.
    pub fn zscale(self, zscale: u64) -> (r: MeshMap<'a>)
        ensures
            r == (MeshMap { zscale, ..self }),
    {
        let mut r = self;
        r.zscale = zscale;
        r
    }

    /// Sets the level every column starts from.
    pub fn ground(self, ground: u8) -> (r: MeshMap<'a>)
        ensures
            r == (MeshMap { ground, ..self }),
    {
        let mut r = self;
        r.ground = ground;
        r
    }

    /// Borrows the colour map that classifies the levels.
    pub fn color(self, color_map: &'a ColorMap) -> (r: MeshMap<'a>)
        ensures
            r == (MeshMap { color_map: Some(color_map), ..self }),
    {
        let mut r = self;
        r.color_map = Some(color_map);
        r
    }

    /// Borrows the noise map that the columns are extruded from.
    pub fn noise(self, noise_map: &'a NoiseMap) -> (r: MeshMap<'a>)
        ensures
            r == (MeshMap { noise_map: Some(noise_map), ..self }),
    {
        let mut r = self;
        r.noise_map = Some(noise_map);
        r
    }

    /// The maps are present and agree with the mesh's extent.
    pub open spec fn ready(&self) -> bool {
        &&& self.color_map is Some
        &&& self.noise_map is Some
        &&& self.color_map->0.width == self.width
        &&& self.color_map->0.height == self.height
        &&& self.noise_map->0.width == self.width
        &&& self.noise_map->0.height == self.height
        &&& is_grid(self.noise_map->0.map@, self.width as int, self.height as int)
    }

    /// Computes every column top: `curve` gives the response (fixed point) of
    /// the height curve to a normalised height, which is scaled by `zscale`,
    /// rounded down and raised by `ground`.
    pub fn build<F: Fn(u32) -> u32>(self, curve: F) -> (r: Result<MeshMap<'a>, MapError>)
        requires
            forall|h: u32| curve.requires((h,)),
        ensures
            self.color_map is None ==> r == Err::<MeshMap<'a>, MapError>(MapError::MissingColorMap),
            self.color_map is Some && self.noise_map is None ==> r == Err::<MeshMap<'a>, MapError>(
                MapError::MissingNoiseMap),
            self.color_map is Some && self.noise_map is Some && !self.ready() ==> r
                == Err::<MeshMap<'a>, MapError>(MapError::DimensionMismatch),
            self.ready() ==> r is Ok,
            r matches Ok(m) ==> {
                &&& m.wf()
                &&& m.width == self.width && m.height == self.height
                &&& m.zscale == self.zscale && m.ground == self.ground
                &&& m.color_map == self.color_map && m.noise_map == self.noise_map
                &&& forall|x: int, y: int|
                    0 <= x < self.width && 0 <= y < self.height ==> #[trigger] shaped_by(
                        curve,
                        self.noise_map->0.map@[x]@[y],
                        m.map@[x]@[y] as int,
                        self.ground as int,
                        self.zscale as int,
                    )
            },
    {
        let color_map = match self.color_map {
            Some(c) => c,
            None => {
                return Err(MapError::MissingColorMap);
            },
        };
        let noise_map = match self.noise_map {
            Some(n) => n,
            None => {
                return Err(MapError::MissingNoiseMap);
            },
        };
        let w = self.width;
        let h = self.height;
        if color_map.width != w || color_map.height != h || noise_map.width != w
            || noise_map.height != h || !has_extent(&noise_map.map, w, h) {
            return Err(MapError::DimensionMismatch);
        }
        let ground = self.ground;
        let zscale = self.zscale;
        let mut map: Vec<Vec<u64>> = Vec::new();
        let mut x: u32 = 0;
        while x < w
            invariant
                is_grid(noise_map.map@, w as int, h as int),
                self.noise_map == Some(noise_map),
                forall|hh: u32| curve.requires((hh,)),
                x <= w,
                is_grid(map@, x as int, h as int),
                forall|a: int, b: int| 0 <= a < x && 0 <= b < h ==> #[trigger] shaped_by(curve, noise_map.map@[a]@[b], map@[a]@[b] as int, ground as int, zscale as int),
                forall|a: int, b: int| 0 <= a < x && 0 <= b < h ==> ground <= #[trigger] map@[a]@[b],
            decreases w - x,
        {
            let ghost before = map@;
            let mut col: Vec<u64> = Vec::new();
            let mut y: u32 = 0;
            while y < h
                invariant
                    is_grid(noise_map.map@, w as int, h as int),
                    forall|hh: u32| curve.requires((hh,)),
                    x < w,
                    y <= h,
                    col@.len() == y,
                    forall|b: int| 0 <= b < y ==> #[trigger] shaped_by(curve, noise_map.map@[x as int]@[b], col@[b] as int, ground as int, zscale as int),
                    forall|b: int| 0 <= b < y ==> ground <= #[trigger] col@[b],
                decreases h - y,
            {
                assert(noise_map.map@[x as int]@.len() == h);
                let c = curve(noise_map.map[x as usize][y as usize]);
                proof {
                    assert((c as int) * (zscale as int) <= 0xffff_ffff * 0xffff_ffff_ffff_ffff)
                        by (nonlinear_arith)
                        requires
                            0 <= c <= 0xffff_ffff,
                            0 <= zscale <= 0xffff_ffff_ffff_ffff,
                    ;
                }
                let product: u128 = c as u128 * zscale as u128;
                proof {
                    assert(0xffff_ffff * 0xffff_ffff_ffff_ffff <= 0x200_0000_0000_0000 * 1_000_000_000_000);
                    vstd::arithmetic::div_mod::lemma_div_is_ordered(
                        product as int,
                        (0x200_0000_0000_0000 * 1_000_000_000_000) as int,
                        1_000_000_000_000,
                    );
                    vstd::arithmetic::div_mod::lemma_div_by_multiple(0x200_0000_0000_0000, 1_000_000_000_000);
                    vstd::arithmetic::div_mod::lemma_div_pos_is_pos(product as int, 1_000_000_000_000);
                }
                let rise: u128 = product / 1_000_000_000_000u128;
                assert(rise <= 0x200_0000_0000_0000);
                let top: u64 = ground as u64 + rise as u64;
                assert(top == column_top(ground as int, zscale as int, c as int));
                let ghost prev = col@;
                col.push(top);
                proof {
                    assert(curve.ensures((noise_map.map@[x as int]@[y as int],), c) && col@[y as int]
                        == column_top(ground as int, zscale as int, c as int));
                    assert(shaped_by(curve, noise_map.map@[x as int]@[y as int], col@[y as int] as int, ground as int, zscale as int));
                    assert forall|b: int| 0 <= b < y + 1 implies #[trigger] shaped_by(curve, noise_map.map@[x as int]@[b], col@[b] as int, ground as int, zscale as int) by {
                        if b < y {
                            assert(col@[b] == prev[b]);
                        }
                    }
                }
                y = y + 1;
            }
            let ghost colv = col@;
            map.push(col);
            proof {
                assert forall|a: int| 0 <= a < x + 1 implies (#[trigger] map@[a])@.len() == h by {
                    if a < x {
                        assert(map@[a] == before[a]);
                    }
                }
                assert forall|a: int, b: int| 0 <= a < x + 1 && 0 <= b < h implies #[trigger] shaped_by(curve, noise_map.map@[a]@[b], map@[a]@[b] as int, ground as int, zscale as int) by {
                    if a < x {
                        assert(map@[a] == before[a]);
                    } else {
                        assert(map@[a]@ == colv);
                        assert(a == x);
                    }
                }
                assert forall|a: int, b: int| 0 <= a < x + 1 && 0 <= b < h implies ground
                    <= #[trigger] map@[a]@[b] by {
                    if a < x {
                        assert(map@[a] == before[a]);
                    } else {
                        assert(map@[a]@ == colv);
                    }
                }
            }
            x = x + 1;
        }
        let mut out = self;
        out.map = map;
        Ok(out)
    }

    /// The voxels a render emits, in order.
    pub open spec fn steps(&self) -> Seq<Step> {
        grid_steps(self.map@, self.ground as int, self.width as int, self.height as int)
    }

    /// Emits every column into `model`, row by row: each column from its top
    /// down to ground, each level coloured by the level band that contains its
    /// height above ground. Stops at the first level that no band contains or
    /// that the model refuses, keeping the voxels already emitted.
    pub fn render(&self, model: &mut Model) -> (r: Result<(), MapError>)
        requires
            self.wf(),
            self.color_map->0.wf(),
        ensures
            model_extent(*final(model)) == model_extent(*old(model)),
            r is Ok ==> all_ok(
                self.color_map->0.colors@,
                self.ground as int,
                model_extent(*old(model)),
                self.steps(),
            ) && model_voxels(*final(model)) == model_voxels(*old(model)) + emitted(
                self.color_map->0.colors@,
                self.ground as int,
                self.steps(),
            ),
            r matches Err(e) ==> exists|k: int|
                0 <= k < self.steps().len() && all_ok(
                    self.color_map->0.colors@,
                    self.ground as int,
                    model_extent(*old(model)),
                    self.steps().take(k),
                ) && !step_ok(
                    self.color_map->0.colors@,
                    self.ground as int,
                    model_extent(*old(model)),
                    #[trigger] self.steps()[k],
                ) && e == step_error(self.color_map->0.colors@, self.ground as int, self.steps()[k])
                    && model_voxels(*final(model)) == model_voxels(*old(model)) + emitted(
                    self.color_map->0.colors@,
                    self.ground as int,
                    self.steps().take(k),
                ),
    {
        let color_map = match self.color_map {
            Some(c) => c,
            None => {
                return Ok(());
            },
        };
        let ghost colors = color_map.colors@;
        let ghost g = self.ground as int;
        let ghost ext = model_extent(*model);
        let ghost steps = self.steps();
        let ghost start = model_voxels(*model);
        let ghost mut done: Seq<Step> = seq![];
        let ghost mut kk: int = 0;
        let w = self.width;
        let h = self.height;
        let ground = self.ground as u64;
        let mut failure: Option<MapError> = None;
        let mut y: u32 = 0;
        while y < h && failure.is_none()
            invariant
                self.wf(),
                color_map.wf(),
                self.color_map == Some(color_map),
                colors == color_map.colors@,
                g == ground,
                ground == self.ground,
                w == self.width,
                h == self.height,
                steps == self.steps(),
                y <= h,
                failure is None ==> done == grid_steps(self.map@, g, w as int, y as int),
                all_ok(colors, g, ext, done),
                failure matches Some(e) ==> 0 <= kk < steps.len() && steps.take(kk) == done && !step_ok(
                    colors,
                    g,
                    ext,
                    steps[kk],
                ) && e == step_error(colors, g, steps[kk]),
                model_extent(*model) == ext,
                model_voxels(*model) == start + emitted(colors, g, done),
            decreases h - y,
        {
            let mut x: u32 = 0;
            while x < w && failure.is_none()
                invariant
                    self.wf(),
                    color_map.wf(),
                    self.color_map == Some(color_map),
                    colors == color_map.colors@,
                    g == ground,
                    ground == self.ground,
                    w == self.width,
                    h == self.height,
                    steps == self.steps(),
                    y < h,
                    x <= w,
                    failure is None ==> done == grid_steps(self.map@, g, w as int, y as int)
                        + row_steps(self.map@, g, y as int, x as int),
                    all_ok(colors, g, ext, done),
                    failure matches Some(e) ==> 0 <= kk < steps.len() && steps.take(kk) == done
                        && !step_ok(colors, g, ext, steps[kk]) && e == step_error(colors, g, steps[kk]),
                    model_extent(*model) == ext,
                    model_voxels(*model) == start + emitted(colors, g, done),
                decreases w - x,
            {
                assert(self.map@[x as int]@.len() == h);
                let z = self.map[x as usize][y as usize];
                assert(ground <= z);
                let ghost col = column_steps(x as int, y as int, z as int, g);
                let ghost base = done;
                assert(base + col.take(0) =~= base);
                let count: u128 = (z - ground) as u128;
                let mut i: u128 = 0;
                while i <= count && failure.is_none()
                    invariant
                        self.wf(),
                        color_map.wf(),
                        self.color_map == Some(color_map),
                        colors == color_map.colors@,
                        g == ground,
                        ground == self.ground,
                        w == self.width,
                        h == self.height,
                        steps == self.steps(),
                        y < h,
                        x < w,
                        z == self.map@[x as int]@[y as int],
                        ground <= z,
                        count == z - ground,
                        col == column_steps(x as int, y as int, z as int, g),
                        base == grid_steps(self.map@, g, w as int, y as int) + row_steps(
                            self.map@,
                            g,
                            y as int,
                            x as int,
                        ),
                        i <= count + 1,
                        failure is None ==> done == base + col.take(i as int),
                        all_ok(colors, g, ext, done),
                        failure matches Some(e) ==> 0 <= kk < steps.len() && steps.take(kk) == done
                            && !step_ok(colors, g, ext, steps[kk]) && e == step_error(colors, g, steps[kk]),
                        model_extent(*model) == ext,
                        model_voxels(*model) == start + emitted(colors, g, done),
                    decreases count + 1 - i,
                {
                    let zp: u64 = z - i as u64;
                    let ghost cur: Step = (x as int, y as int, zp as int);
                    proof {
                        lemma_next_step(self.map@, g, w as int, h as int, x as int, y as int, z as int, i as int);
                        assert(done.push(cur) == (base + col.take(i as int)).push(cur));
                        assert(steps[done.len() as int] == cur);
                        assert(steps.take(done.len() as int) =~= done);
                    }
                    let res = emit(model, color_map, x, y, zp, ground);
                    match res {
                        Ok(()) => {
                            proof {
                                let nd = done.push(cur);
                                assert(emitted(colors, g, nd) =~= emitted(colors, g, done).push(voxel_of(colors, g, cur)));
                                assert(model_voxels(*model) =~= start + emitted(colors, g, nd));
                                assert(nd =~= base + col.take(i + 1));
                                assert forall|k: int| 0 <= k < nd.len() implies #[trigger] step_ok(colors, g, ext, nd[k]) by {
                                    if k < done.len() {
                                        assert(nd[k] == done[k]);
                                    }
                                }
                                done = nd;
                            }
                        },
                        Err(e) => {
                            proof {
                                kk = done.len() as int;
                            }
                            failure = Some(e);
                        },
                    }
                    i = i + 1;
                }
                proof {
                    if failure is None {
                        assert(col.take(col.len() as int) =~= col);
                        assert(row_steps(self.map@, g, y as int, x + 1) == row_steps(self.map@, g, y as int, x as int) + col);
                        assert(done =~= grid_steps(self.map@, g, w as int, y as int) + row_steps(self.map@, g, y as int, x + 1));
                    }
                }
                x = x + 1;
            }
            proof {
                if failure is None {
                    assert(grid_steps(self.map@, g, w as int, y + 1) == grid_steps(self.map@, g, w as int, y as int) + row_steps(self.map@, g, y as int, w as int));
                }
            }
            y = y + 1;
        }
        match failure {
            None => Ok(()),
            Some(e) => Err(e),
        }
    }
}

} // verus!
