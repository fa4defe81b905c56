use vstd::prelude::*;
use vstd::arithmetic::div_mod::{lemma_div_by_multiple, lemma_div_is_ordered, lemma_div_pos_is_pos};
use crate::{is_grid, MapError, Vector2D, UNIT};
use rand::Rng;
use rand::SeedableRng;

verus! {

/// A fractal height field over a `width` x `height` grid, normalised to
/// `[0, UNIT]` by [`NoiseMap::build`].
pub struct NoiseMap {
    pub width: u32,
    pub height: u32,
    /// Normalised heights, indexed `map[x][y]`.
    pub map: Vec<Vec<u32>>,
    /// Divisor from grid to noise coordinates, fixed point; must be positive.
    pub scale: i64,
    /// Number of summed noise layers.
    pub octaves: u32,
    /// Amplitude factor from one octave to the next, fixed point.
    pub persistance: i64,
    /// Frequency factor from one octave to the next, fixed point.
    pub lacunarity: i64,
    /// World-space shift applied before sampling.
    pub offset: Vector2D,
    /// Seed of every random choice; one is drawn when absent.
    pub seed: Option<u32>,
}

/// Octave offsets are drawn from `[-OCTAVE_SPREAD, OCTAVE_SPREAD)` around the
/// configured offset.
pub const OCTAVE_SPREAD: i32 = 100_000;

#[verifier::external_type_specification]
#[verifier::external_body]
pub struct ExLcg128Xsl64(rand_pcg::Lcg128Xsl64);

/// Relies on `rand::random::<u32>`: some `u32` drawn from the thread-local generator.
#[verifier::external_body]
fn fresh_seed() -> (r: u32) {
    rand::random::<u32>()
}

/// Relies on `SeedableRng::seed_from_u64` for `rand_pcg::Pcg64`: a generator
/// whose stream depends on `seed` alone.
#[verifier::external_body]
fn seeded_stream(seed: u64) -> (r: rand_pcg::Pcg64) {
    rand_pcg::Pcg64::seed_from_u64(seed)
}

/// Relies on `Rng::gen_range` over `low..high`: a value in `[low, high)`; it
/// panics on an empty range, which `requires` excludes.
#[verifier::external_body]
fn draw_in(rng: &mut rand_pcg::Pcg64, low: i32, high: i32) -> (r: i32)
    requires
        low < high,
    ensures
        low <= r < high,
{
    rng.gen_range(low..high)
}

/// `m` is the least cell of `g`.
pub open spec fn is_lowest(g: Seq<Vec<i64>>, m: int) -> bool {
    &&& forall|x: int, y: int| 0 <= x < g.len() && 0 <= y < g[x]@.len() ==> m <= #[trigger] g[x]@[y]
    &&& exists|x: int, y: int| 0 <= x < g.len() && 0 <= y < g[x]@.len() && m == #[trigger] g[x]@[y]
}

/// `m` is the greatest cell of `g`.
pub open spec fn is_highest(g: Seq<Vec<i64>>, m: int) -> bool {
    &&& forall|x: int, y: int| 0 <= x < g.len() && 0 <= y < g[x]@.len() ==> #[trigger] g[x]@[y] <= m
    &&& exists|x: int, y: int| 0 <= x < g.len() && 0 <= y < g[x]@.len() && m == #[trigger] g[x]@[y]
}

/// The least cell of a non-empty grid.
pub open spec fn lowest(g: Seq<Vec<i64>>) -> int {
    choose|m: int| is_lowest(g, m)
}

/// The greatest cell of a non-empty grid.
pub open spec fn highest(g: Seq<Vec<i64>>) -> int {
    choose|m: int| is_highest(g, m)
}

/// `v` mapped linearly from `[lo, hi]` onto `[0, UNIT]`, rounded down; a flat
/// range maps everything to 0.
pub open spec fn inverse_lerp(lo: int, hi: int, v: int) -> int {
    if hi <= lo {
        0
    } else {
        (v - lo) * UNIT / (hi - lo)
    }
}

/// The normalised height of cell `(x, y)` of the raw field `raw`.
pub open spec fn normalized(raw: Seq<Vec<i64>>, x: int, y: int) -> int {
    inverse_lerp(lowest(raw), highest(raw), raw[x]@[y] as int)
}

proof fn lemma_lowest_unique(g: Seq<Vec<i64>>, m: int)
    requires
        is_lowest(g, m),
    ensures
        lowest(g) == m,
{
    let c = lowest(g);
    assert(is_lowest(g, c));
    let (x, y) = choose|x: int, y: int| 0 <= x < g.len() && 0 <= y < g[x]@.len() && c == #[trigger] g[x]@[y];
    let (x2, y2) = choose|x: int, y: int| 0 <= x < g.len() && 0 <= y < g[x]@.len() && m == #[trigger] g[x]@[y];
    assert(m <= g[x]@[y]);
    assert(c <= g[x2]@[y2]);
}

proof fn lemma_highest_unique(g: Seq<Vec<i64>>, m: int)
    requires
        is_highest(g, m),
    ensures
        highest(g) == m,
{
    let c = highest(g);
    assert(is_highest(g, c));
    let (x, y) = choose|x: int, y: int| 0 <= x < g.len() && 0 <= y < g[x]@.len() && c == #[trigger] g[x]@[y];
    let (x2, y2) = choose|x: int, y: int| 0 <= x < g.len() && 0 <= y < g[x]@.len() && m == #[trigger] g[x]@[y];
    assert(g[x]@[y] <= m);
    assert(g[x2]@[y2] <= c);
}

/// Inverse linear interpolation stays within `[0, UNIT]` for `v` in `[lo, hi]`.
pub proof fn lemma_inverse_lerp_bounds(lo: int, hi: int, v: int)
    requires
        lo <= v <= hi,
    ensures
        0 <= inverse_lerp(lo, hi, v) <= UNIT,
{
    if hi > lo {
        let d = hi - lo;
        assert((v - lo) * UNIT <= d * UNIT) by (nonlinear_arith)
            requires v - lo <= d;
        assert(0 <= (v - lo) * UNIT) by (nonlinear_arith)
            requires 0 <= v - lo;
        lemma_div_is_ordered((v - lo) * UNIT, d * UNIT, d);
        lemma_div_by_multiple(UNIT as int, d);
        assert(d * UNIT == UNIT * d) by (nonlinear_arith);
        lemma_div_pos_is_pos((v - lo) * UNIT, d);
    }
}

fn inverselerp(lo: i64, hi: i64, v: i64) -> (r: u32)
    requires
        lo <= v <= hi,
    ensures
        r == inverse_lerp(lo as int, hi as int, v as int),
{
    proof {
        lemma_inverse_lerp_bounds(lo as int, hi as int, v as int);
    }
    if hi <= lo {
        0
    } else {
        let span: i128 = hi as i128 - lo as i128;
        let rise: i128 = v as i128 - lo as i128;
        assert(rise * 1_000_000 <= 0x1_0000_0000_0000_0000i128 * 1_000_000) by (nonlinear_arith)
            requires 0 <= rise <= 0x1_0000_0000_0000_0000i128;
        let scaled: i128 = rise * (UNIT as i128);
        (scaled / span) as u32
    }
}

/// Whether `g` has `w` columns of `h` cells each.
pub(crate) fn has_extent<T>(g: &Vec<Vec<T>>, w: u32, h: u32) -> (r: bool)
    ensures
        r == is_grid(g@, w as int, h as int),
{
    if g.len() != w as usize {
        return false;
    }
    let mut x: usize = 0;
    while x < g.len()
        invariant
            g@.len() == w,
            x <= g@.len(),
            forall|i: int| 0 <= i < x ==> (#[trigger] g@[i])@.len() == h,
        decreases g@.len() - x,
    {
        if g[x].len() != h as usize {
            return false;
        }
        x = x + 1;
    }
    true
}

/// The least and greatest cells of a non-empty grid.
fn extremes(raw: &Vec<Vec<i64>>, w: u32, h: u32) -> (r: (i64, i64))
    requires
        is_grid(raw@, w as int, h as int),
        w > 0,
        h > 0,
    ensures
        is_lowest(raw@, r.0 as int),
        is_highest(raw@, r.1 as int),
{
    let mut lo: i64 = raw[0][0];
    let mut hi: i64 = raw[0][0];
    let mut x: usize = 0;
    while x < w as usize
        invariant
            is_grid(raw@, w as int, h as int),
            w > 0,
            h > 0,
            x <= w,
            exists|a: int, b: int| 0 <= a < w && 0 <= b < h && lo == #[trigger] raw@[a]@[b],
            exists|a: int, b: int| 0 <= a < w && 0 <= b < h && hi == #[trigger] raw@[a]@[b],
            forall|a: int, b: int| 0 <= a < x && 0 <= b < h ==> lo <= #[trigger] raw@[a]@[b] <= hi,
        decreases w - x,
    {
        let mut y: usize = 0;
        while y < h as usize
            invariant
                is_grid(raw@, w as int, h as int),
                w > 0,
                h > 0,
                x < w,
                y <= h,
                exists|a: int, b: int| 0 <= a < w && 0 <= b < h && lo == #[trigger] raw@[a]@[b],
                exists|a: int, b: int| 0 <= a < w && 0 <= b < h && hi == #[trigger] raw@[a]@[b],
                forall|a: int, b: int| 0 <= a < x && 0 <= b < h ==> lo <= #[trigger] raw@[a]@[b] <= hi,
                forall|b: int| 0 <= b < y ==> lo <= #[trigger] raw@[x as int]@[b] <= hi,
            decreases h - y,
        {
            assert(raw@[x as int]@.len() == h);
            let v = raw[x][y];
            if v < lo {
                lo = v;
            }
            if v > hi {
                hi = v;
            }
            y = y + 1;
        }
        x = x + 1;
    }
    (lo, hi)
}

/// A `w` x `h` grid holding `zero` in every cell.
pub(crate) fn zero_grid<T: Copy>(w: u32, h: u32, zero: T) -> (r: Vec<Vec<T>>)
    ensures
        is_grid(r@, w as int, h as int),
        forall|x: int, y: int| 0 <= x < w && 0 <= y < h ==> #[trigger] r@[x]@[y] == zero,
{
    let mut g: Vec<Vec<T>> = Vec::new();
    let mut x: u32 = 0;
    while x < w
        invariant
            x <= w,
            is_grid(g@, x as int, h as int),
            forall|a: int, b: int| 0 <= a < x && 0 <= b < h ==> #[trigger] g@[a]@[b] == zero,
        decreases w - x,
    {
        let mut col: Vec<T> = Vec::new();
        let mut y: u32 = 0;
        while y < h
            invariant
                y <= h,
                col@.len() == y,
                forall|b: int| 0 <= b < y ==> #[trigger] col@[b] == zero,
            decreases h - y,
        {
            col.push(zero);
            y = y + 1;
        }
        let ghost before = g@;
        g.push(col);
        proof {
            assert forall|a: int| 0 <= a < x + 1 implies (#[trigger] g@[a])@.len() == h by {
                if a < x {
                    assert(g@[a] == before[a]);
                }
            }
        }
        x = x + 1;
    }
    g
}

impl NoiseMap {
    /// The map is a `width` x `height` grid of heights in `[0, UNIT]`.
    pub open spec fn wf(&self) -> bool {
        &&& is_grid(self.map@, self.width as int, self.height as int)
        &&& forall|x: int, y: int|
            0 <= x < self.width && 0 <= y < self.height ==> #[trigger] self.map@[x]@[y] <= UNIT
    }

    /// A `width` x `height` map of zeros with the default configuration:
    /// scale 0.0001, four octaves, persistence 0.5, lacunarity 2, no offset and
    /// no seed.
    pub fn new(width: u32, height: u32) -> (r: NoiseMap)
        ensures
            r.wf(),
            r.width == width,
            r.height == height,
            r.scale == 100,
            r.octaves == 4,
            r.persistance == 500_000,
            r.lacunarity == 2_000_000,
            r.offset == (Vector2D { x: 0, y: 0 }),
            r.seed is None,
            forall|x: int, y: int| 0 <= x < width && 0 <= y < height ==> #[trigger] r.map@[x]@[y] == 0,
    {
        NoiseMap {
            width,
            height,
            map: zero_grid(width, height, 0u32),
            scale: 100,
            octaves: 4,
            persistance: 500_000,
            lacunarity: 2_000_000,
            offset: Vector2D { x: 0, y: 0 },
            seed: None,
        }
    }

    /// Fixes the seed of every random choice of [`NoiseMap::octave_offsets`].
    pub fn seed(self, seed: u32) -> (r: NoiseMap)
        ensures
            r == (NoiseMap { seed: Some(seed), ..self }),
    {
        let mut r = self;
        r.seed = Some(seed);
        r
    }

    /// Sets the coordinate divisor, fixed point; it must be positive.
    pub fn scale(self, scale: i64) -> (r: NoiseMap)
        ensures
            r == (NoiseMap { scale, ..self }),
    {
        let mut r = self;
        r.scale = scale;
        r
    }

    /// Sets the number of summed octaves.
    pub fn octaves(self, octaves: u32) -> (r: NoiseMap)
        ensures
            r == (NoiseMap { octaves, ..self }),
    {
        let mut r = self;
        r.octaves = octaves;
        r
    }

    /// Sets the amplitude factor between octaves, fixed point.
    pub fn persistance(self, persistance: i64) -> (r: NoiseMap)
        ensures
            r == (NoiseMap { persistance, ..self }),
    {
        let mut r = self;
        r.persistance = persistance;
        r
    }

    /// Sets the frequency factor between octaves, fixed point.
    pub fn lacunarity(self, lacunarity: i64) -> (r: NoiseMap)
        ensures
            r == (NoiseMap { lacunarity, ..self }),
    {
        let mut r = self;
        r.lacunarity = lacunarity;
        r
    }

    /// Sets the world-space shift applied before sampling.
    pub fn offset(self, x: i32, y: i32) -> (r: NoiseMap)
        ensures
            r == (NoiseMap { offset: Vector2D { x: x as i64, y: y as i64 }, ..self }),
    {
        let mut r = self;
        r.offset = Vector2D { x: x as i64, y: y as i64 };
        r
    }

    /// The configured seed, or else one freshly drawn.
    pub fn resolve_seed(&self) -> (r: u32)
        ensures
            self.seed matches Some(s) ==> r == s,
    {
        match self.seed {
            Some(s) => s,
            None => fresh_seed(),
        }
    }

    /// One offset per octave, each the configured offset displaced by a value
    /// drawn from `[-OCTAVE_SPREAD, OCTAVE_SPREAD)` on each axis, from a
    /// generator seeded with `seed`.
    pub fn octave_offsets(&self, seed: u32) -> (r: Vec<Vector2D>)
        requires
            i64::MIN + OCTAVE_SPREAD <= self.offset.x <= i64::MAX - OCTAVE_SPREAD,
            i64::MIN + OCTAVE_SPREAD <= self.offset.y <= i64::MAX - OCTAVE_SPREAD,
        ensures
            r@.len() == self.octaves,
            forall|i: int| 0 <= i < r@.len() ==> {
                &&& self.offset.x - OCTAVE_SPREAD <= (#[trigger] r@[i]).x < self.offset.x + OCTAVE_SPREAD
                &&& self.offset.y - OCTAVE_SPREAD <= r@[i].y < self.offset.y + OCTAVE_SPREAD
            },
    {
        let mut rng = seeded_stream(seed as u64);
        let mut out: Vec<Vector2D> = Vec::new();
        let mut i: u32 = 0;
        while i < self.octaves
            invariant
                i64::MIN + OCTAVE_SPREAD <= self.offset.x <= i64::MAX - OCTAVE_SPREAD,
                i64::MIN + OCTAVE_SPREAD <= self.offset.y <= i64::MAX - OCTAVE_SPREAD,
                i <= self.octaves,
                out@.len() == i,
                forall|k: int| 0 <= k < i ==> {
                    &&& self.offset.x - OCTAVE_SPREAD <= (#[trigger] out@[k]).x < self.offset.x
                        + OCTAVE_SPREAD
                    &&& self.offset.y - OCTAVE_SPREAD <= out@[k].y < self.offset.y + OCTAVE_SPREAD
                },
            decreases self.octaves - i,
        {
            let dx = draw_in(&mut rng, -OCTAVE_SPREAD, OCTAVE_SPREAD);
            let dy = draw_in(&mut rng, -OCTAVE_SPREAD, OCTAVE_SPREAD);
            out.push(Vector2D { x: dx as i64 + self.offset.x, y: dy as i64 + self.offset.y });
            i = i + 1;
        }
        out
    }

    /// `self` holds the configuration of `cfg` and the normalisation of `raw`.
    pub open spec fn normalizes(&self, cfg: NoiseMap, raw: Seq<Vec<i64>>) -> bool {
        &&& self.wf()
        &&& self.width == cfg.width
        &&& self.height == cfg.height
        &&& self.scale == cfg.scale
        &&& self.octaves == cfg.octaves
        &&& self.persistance == cfg.persistance
        &&& self.lacunarity == cfg.lacunarity
        &&& self.offset == cfg.offset
        &&& self.seed == cfg.seed
        &&& forall|x: int, y: int|
            0 <= x < self.width && 0 <= y < self.height ==> #[trigger] self.map@[x]@[y]
                == normalized(raw, x, y)
    }

    /// Finishes the map from `raw`, the summed octave samples of every cell
    /// (fixed point, indexed `raw[x][y]`): each cell is mapped from the field's
    /// `[least, greatest]` range onto `[0, UNIT]`.
    pub fn build(self, raw: &Vec<Vec<i64>>) -> (r: Result<NoiseMap, MapError>)
        ensures
            self.scale <= 0 ==> r == Err::<NoiseMap, MapError>(MapError::InvalidScale),
            self.scale > 0 && !is_grid(raw@, self.width as int, self.height as int) ==> r
                == Err::<NoiseMap, MapError>(MapError::DimensionMismatch),
            self.scale > 0 && is_grid(raw@, self.width as int, self.height as int) ==> r is Ok,
            r matches Ok(m) ==> m.normalizes(self, raw@),
    {
        if self.scale <= 0 {
            return Err(MapError::InvalidScale);
        }
        let w = self.width;
        let h = self.height;
        if !has_extent(raw, w, h) {
            return Err(MapError::DimensionMismatch);
        }
        let (lo, hi) = if w > 0 && h > 0 {
            extremes(raw, w, h)
        } else {
            (0, 0)
        };
        proof {
            if w > 0 && h > 0 {
                lemma_lowest_unique(raw@, lo as int);
                lemma_highest_unique(raw@, hi as int);
            }
        }
        let mut map: Vec<Vec<u32>> = Vec::new();
        let mut x: usize = 0;
        while x < w as usize
            invariant
                is_grid(raw@, w as int, h as int),
                w > 0 && h > 0 ==> lowest(raw@) == lo && highest(raw@) == hi,
                w > 0 && h > 0 ==> is_lowest(raw@, lo as int) && is_highest(raw@, hi as int),
                x <= w,
                is_grid(map@, x as int, h as int),
                forall|a: int, b: int| 0 <= a < x && 0 <= b < h ==> #[trigger] map@[a]@[b]
                    == normalized(raw@, a, b) && map@[a]@[b] <= UNIT,
            decreases w - x,
        {
            let mut col: Vec<u32> = Vec::new();
            let mut y: usize = 0;
            while y < h as usize
                invariant
                    is_grid(raw@, w as int, h as int),
                    w > 0 && h > 0 ==> lowest(raw@) == lo && highest(raw@) == hi,
                    w > 0 && h > 0 ==> is_lowest(raw@, lo as int) && is_highest(raw@, hi as int),
                    x < w,
                    y <= h,
                    col@.len() == y,
                    forall|b: int| 0 <= b < y ==> #[trigger] col@[b] == normalized(raw@, x as int, b)
                        && col@[b] <= UNIT,
                decreases h - y,
            {
                assert(raw@[x as int]@.len() == h);
                let v = raw[x][y];
                assert(lo <= v <= hi);
                proof {
                    lemma_inverse_lerp_bounds(lo as int, hi as int, v as int);
                }
                col.push(inverselerp(lo, hi, v));
                y = y + 1;
            }
            let ghost before = map@;
            map.push(col);
            proof {
                assert forall|a: int| 0 <= a < x + 1 implies (#[trigger] map@[a])@.len() == h by {
                    if a < x {
                        assert(map@[a] == before[a]);
                    }
                }
            }
            x = x + 1;
        }
        let mut out = self;
        out.map = map;
        Ok(out)
    }
}

/// Building is a function of the configuration and the raw field: two maps
/// built from equal raw fields hold identical grids.
pub proof fn lemma_build_deterministic(a: NoiseMap, b: NoiseMap, cfg: NoiseMap, raw: Seq<Vec<i64>>)
    requires
        a.normalizes(cfg, raw),
        b.normalizes(cfg, raw),
    ensures
        a.map@.len() == b.map@.len(),
        forall|x: int, y: int|
            0 <= x < cfg.width && 0 <= y < cfg.height ==> #[trigger] a.map@[x]@[y] == b.map@[x]@[y],
{
}

/// Every built map holds heights in `[0, UNIT]` only.
pub proof fn lemma_build_in_unit_range(m: NoiseMap, cfg: NoiseMap, raw: Seq<Vec<i64>>)
    requires
        m.normalizes(cfg, raw),
    ensures
        forall|x: int, y: int|
            0 <= x < m.width && 0 <= y < m.height ==> 0 <= #[trigger] m.map@[x]@[y] <= UNIT,
{
}

} // verus!
