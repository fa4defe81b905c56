use vstd::prelude::*;
use crate::noise_map::{has_extent, zero_grid, NoiseMap};
use crate::{is_grid, MapError};

verus! {

/// How a terrain band decides whether a sample belongs to it.
#[derive(Clone, Copy, Debug, PartialEq, Eq, Structural)]
pub enum Rule {
    /// Heights strictly below this fixed-point bound.
    Threshold(u32),
    /// Levels in the inclusive range `[start, end]`.
    LevelRange(u64, u64),
}

impl Rule {
    /// The value a table of bands is sorted by.
    pub open spec fn key(self) -> int {
        match self {
            Rule::Threshold(t) => t as int,
            Rule::LevelRange(start, _) => start as int,
        }
    }

    /// Whether `sample` belongs to the band.
    pub open spec fn accepts(self, sample: int) -> bool {
        match self {
            Rule::Threshold(t) => sample < t,
            Rule::LevelRange(start, end) => start <= sample <= end,
        }
    }
}

/// A named terrain band with its palette colour.
pub struct Terrain {
    pub name: String,
    pub rule: Rule,
    pub color_index: u8,
}

impl Terrain {
    /// A threshold band: heights below `height` (fixed point) take `color_index`.
    pub fn new(name: &str, height: u32, color_index: u8) -> (r: Terrain)
        requires
            color_index >= 1,
        ensures
            r.name@ == name@,
            r.rule == Rule::Threshold(height),
            r.color_index == color_index,
    {
        Terrain { name: name.to_string(), rule: Rule::Threshold(height), color_index }
    }

    /// A level band: levels in `[start, end]` take `color_index`.
    pub fn range(name: &str, start: u64, end: u64, color_index: u8) -> (r: Terrain)
        requires
            color_index >= 1,
        ensures
            r.name@ == name@,
            r.rule == Rule::LevelRange(start, end),
            r.color_index == color_index,
    {
        Terrain { name: name.to_string(), rule: Rule::LevelRange(start, end), color_index }
    }

    /// Whether `sample` belongs to this band.
    pub fn matches(&self, sample: u64) -> (r: bool)
        ensures
            r == self.rule.accepts(sample as int),
    {
        match self.rule {
            Rule::Threshold(t) => sample < t as u64,
            Rule::LevelRange(start, end) => start <= sample && sample <= end,
        }
    }

    /// The value a table of bands is sorted by.
    pub fn key(&self) -> (r: u64)
        ensures
            r == self.rule.key(),
    {
        match self.rule {
            Rule::Threshold(t) => t as u64,
            Rule::LevelRange(start, _) => start,
        }
    }

    /// Whether this is a threshold band.
    pub fn is_threshold(&self) -> (r: bool)
        ensures
            r == self.rule is Threshold,
    {
        match self.rule {
            Rule::Threshold(_) => true,
            Rule::LevelRange(_, _) => false,
        }
    }
}

impl PartialEq for Terrain {
    /// Bands are the same band when their names are equal.
    fn eq(&self, other: &Terrain) -> (r: bool) {
        self.name.eq(&other.name)
    }
}

impl vstd::std_specs::cmp::PartialEqSpecImpl for Terrain {
    open spec fn obeys_eq_spec() -> bool {
        true
    }

    open spec fn eq_spec(&self, other: &Terrain) -> bool {
        self.name@ == other.name@
    }
}

/// How two keys compare.
pub open spec fn key_order(a: int, b: int) -> core::cmp::Ordering {
    if a < b {
        core::cmp::Ordering::Less
    } else if a == b {
        core::cmp::Ordering::Equal
    } else {
        core::cmp::Ordering::Greater
    }
}

impl PartialOrd for Terrain {
    /// Bands are ordered by their keys.
    fn partial_cmp(&self, other: &Terrain) -> (r: Option<core::cmp::Ordering>) {
        let a = self.key();
        let b = other.key();
        if a < b {
            Some(core::cmp::Ordering::Less)
        } else if a == b {
            Some(core::cmp::Ordering::Equal)
        } else {
            Some(core::cmp::Ordering::Greater)
        }
    }
}

impl vstd::std_specs::cmp::PartialOrdSpecImpl for Terrain {
    open spec fn obeys_partial_cmp_spec() -> bool {
        true
    }

    open spec fn partial_cmp_spec(&self, other: &Terrain) -> Option<core::cmp::Ordering> {
        Some(key_order(self.rule.key(), other.rule.key()))
    }
}

/// The bands of `ts` are in ascending order of their keys.
pub open spec fn sorted_by_key(ts: Seq<Terrain>) -> bool {
    forall|i: int, j: int| 0 <= i < j < ts.len() ==> ts[i].rule.key() <= ts[j].rule.key()
}

/// The colour of the first threshold band of `ts` above height `h`, or 0.
pub open spec fn height_color(ts: Seq<Terrain>, h: int) -> u8
    decreases ts.len(),
{
    if ts.len() == 0 {
        0
    } else if ts[0].rule is Threshold && ts[0].rule.accepts(h) {
        ts[0].color_index
    } else {
        height_color(ts.drop_first(), h)
    }
}

/// The colour of the first level band of `ts` containing `level`, if any.
pub open spec fn level_color(ts: Seq<Terrain>, level: int) -> Option<u8>
    decreases ts.len(),
{
    if ts.len() == 0 {
        None
    } else if ts[0].rule is LevelRange && ts[0].rule.accepts(level) {
        Some(ts[0].color_index)
    } else {
        level_color(ts.drop_first(), level)
    }
}

/// Every band of `ts` has a colour other than 0.
pub open spec fn all_colored(ts: Seq<Terrain>) -> bool {
    forall|i: int| 0 <= i < ts.len() ==> (#[trigger] ts[i]).color_index >= 1
}

/// A level colour found in a table of coloured bands is never 0.
pub proof fn lemma_level_color_nonzero(ts: Seq<Terrain>, level: int)
    requires
        all_colored(ts),
    ensures
        level_color(ts, level) matches Some(c) ==> c >= 1,
    decreases ts.len(),
{
    if ts.len() > 0 {
        assert(ts[0].color_index >= 1);
        let rest = ts.drop_first();
        assert forall|i: int| 0 <= i < rest.len() implies (#[trigger] rest[i]).color_index >= 1 by {
            assert(rest[i] == ts[i + 1]);
        }
        lemma_level_color_nonzero(rest, level);
    }
}

/// A table of terrain bands over a `width` x `height` grid, and the colours
/// resolved for each cell by [`ColorMap::apply_noise_map`].
pub struct ColorMap {
    pub width: u32,
    pub height: u32,
    /// The bands, in ascending order of their keys.
    pub colors: Vec<Terrain>,
    /// Resolved colours, indexed `map[x][y]`; 0 where no band matched.
    pub map: Vec<Vec<u8>>,
}

/// `map` holds, for every cell of `noise_map`, the colour of the first
/// threshold band of `colors` above that cell's height.
pub open spec fn resolves(map: Seq<Vec<u8>>, colors: Seq<Terrain>, noise_map: &NoiseMap) -> bool {
    &&& is_grid(map, noise_map.width as int, noise_map.height as int)
    &&& forall|x: int, y: int|
        0 <= x < noise_map.width && 0 <= y < noise_map.height ==> #[trigger] map[x]@[y]
            == height_color(colors, noise_map.map@[x]@[y] as int)
}

/// Resolution is a function of the bands and the noise map: resolving again
/// gives the same colours, so applying a colour map twice changes nothing more.
pub proof fn lemma_resolution_is_unique(a: Seq<Vec<u8>>, b: Seq<Vec<u8>>, colors: Seq<Terrain>, noise_map: &NoiseMap)
    requires
        resolves(a, colors, noise_map),
        resolves(b, colors, noise_map),
    ensures
        a.len() == b.len(),
        forall|x: int| 0 <= x < a.len() ==> (#[trigger] a[x])@ == b[x]@,
{
    assert forall|x: int| 0 <= x < a.len() implies (#[trigger] a[x])@ == b[x]@ by {
        assert(a[x]@.len() == b[x]@.len());
        assert forall|y: int| 0 <= y < a[x]@.len() implies a[x]@[y] == b[x]@[y] by {
            assert(a[x]@[y] == height_color(colors, noise_map.map@[x]@[y] as int));
        }
        assert(a[x]@ =~= b[x]@);
    }
}

impl ColorMap {
    /// The extents of this map and of `noise_map` are the same, and the noise
    /// map's grid has that extent.
    pub open spec fn agrees_with(&self, noise_map: &NoiseMap) -> bool {
        &&& self.width == noise_map.width
        &&& self.height == noise_map.height
        &&& is_grid(noise_map.map@, noise_map.width as int, noise_map.height as int)
    }

    /// The bands are sorted and coloured.
    pub open spec fn wf(&self) -> bool {
        sorted_by_key(self.colors@) && all_colored(self.colors@)
    }

    /// An empty table over a `width` x `height` grid of unassigned colours.
    pub fn new(width: u32, height: u32) -> (r: ColorMap)
        ensures
            r.wf(),
            r.width == width,
            r.height == height,
            r.colors@.len() == 0,
            is_grid(r.map@, width as int, height as int),
            forall|x: int, y: int| 0 <= x < width && 0 <= y < height ==> #[trigger] r.map@[x]@[y] == 0,
    {
        ColorMap { width, height, colors: Vec::new(), map: zero_grid(width, height, 0u8) }
    }

    /// Inserts `terrain` after every band whose key is at most its own and
    /// before every band whose key is greater.
    pub fn add(&mut self, terrain: Terrain)
        requires
            old(self).wf(),
            terrain.color_index >= 1,
        ensures
            final(self).wf(),
            final(self).width == old(self).width,
            final(self).height == old(self).height,
            final(self).map == old(self).map,
            exists|p: int|
                0 <= p <= old(self).colors@.len() && final(self).colors@ == old(self).colors@.insert(
                    p,
                    terrain,
                ) && (forall|i: int| 0 <= i < p ==> (#[trigger] old(self).colors@[i]).rule.key()
                    <= terrain.rule.key()) && (forall|i: int|
                    p <= i < old(self).colors@.len() ==> (#[trigger] old(self).colors@[i]).rule.key()
                    > terrain.rule.key()),
    {
        let k = terrain.key();
        let mut p: usize = 0;
        while p < self.colors.len() && self.colors[p].key() <= k
            invariant
                self.wf(),
                p <= self.colors@.len(),
                k == terrain.rule.key(),
                forall|i: int| 0 <= i < p ==> (#[trigger] self.colors@[i]).rule.key() <= k,
            decreases self.colors@.len() - p,
        {
            p = p + 1;
        }
        let ghost prev = self.colors@;
        assert(forall|i: int| p <= i < prev.len() ==> (#[trigger] prev[i]).rule.key() > k) by {
            if p < prev.len() {
                assert(prev[p as int].rule.key() > k);
            }
        }
        self.colors.insert(p, terrain);
        proof {
            let now = self.colors@;
            assert(now == prev.insert(p as int, terrain));
            assert forall|i: int, j: int| 0 <= i < j < now.len() implies now[i].rule.key()
                <= now[j].rule.key() by {
                if j < p {
                } else if j == p {
                } else if i < p {
                    assert(now[j] == prev[j - 1]);
                } else if i == p {
                    assert(now[j] == prev[j - 1]);
                } else {
                    assert(now[i] == prev[i - 1]);
                    assert(now[j] == prev[j - 1]);
                }
            }
            assert forall|i: int| 0 <= i < now.len() implies (#[trigger] now[i]).color_index >= 1 by {
                if i < p {
                } else if i > p {
                    assert(now[i] == prev[i - 1]);
                }
            }
        }
    }

    /// The colour of the first threshold band above height `h`, or 0 where no
    /// band covers it.
    pub fn color_for_height(&self, h: u64) -> (r: u8)
        ensures
            r == height_color(self.colors@, h as int),
    {
        let ghost ts = self.colors@;
        assert(ts.subrange(0, ts.len() as int) =~= ts);
        let mut i: usize = 0;
        while i < self.colors.len()
            invariant
                ts == self.colors@,
                i <= ts.len(),
                height_color(ts, h as int) == height_color(ts.subrange(i as int, ts.len() as int), h as int),
            decreases ts.len() - i,
        {
            let ghost rest = ts.subrange(i as int, ts.len() as int);
            assert(rest.drop_first() =~= ts.subrange(i + 1, ts.len() as int));
            assert(rest[0] == ts[i as int]);
            let t = &self.colors[i];
            if t.is_threshold() && t.matches(h) {
                return t.color_index;
            }
            i = i + 1;
        }
        assert(ts.subrange(i as int, ts.len() as int).len() == 0);
        0
    }

    /// Resolves the colour of every cell of `noise_map` into `map`. Fails when
    /// the extents differ, or names the first cell, in order of `x` then `y`,
    /// that no band covers; every cell is resolved either way.
    pub fn apply_noise_map(&mut self, noise_map: &NoiseMap) -> (r: Result<(), MapError>)
        ensures
            final(self).width == old(self).width,
            final(self).height == old(self).height,
            final(self).colors == old(self).colors,
            r == Err::<(), MapError>(MapError::DimensionMismatch) <==> !old(self).agrees_with(noise_map),
            r == Err::<(), MapError>(MapError::DimensionMismatch) ==> final(self).map == old(self).map,
            old(self).agrees_with(noise_map) ==> resolves(final(self).map@, old(self).colors@, noise_map),
            r is Ok <==> (old(self).agrees_with(noise_map) && forall|x: int, y: int|
                0 <= x < old(self).width && 0 <= y < old(self).height ==> #[trigger] final(self).map@[x]@[y] != 0),
            r matches Err(MapError::Uncovered { x, y }) ==> {
                &&& x < old(self).width && y < old(self).height
                &&& final(self).map@[x as int]@[y as int] == 0
                &&& forall|a: int, b: int|
                    0 <= a < old(self).width && 0 <= b < old(self).height && (a < x || (a == x && b
                        < y)) ==> #[trigger] final(self).map@[a]@[b] != 0
            },
            r is Err ==> r matches Err(MapError::DimensionMismatch) || r matches Err(MapError::Uncovered { .. }),
    {
        let w = self.width;
        let h = self.height;
        if w != noise_map.width || h != noise_map.height || !has_extent(&noise_map.map, w, h) {
            return Err(MapError::DimensionMismatch);
        }
        let mut gap: Option<(u32, u32)> = None;
        let mut map: Vec<Vec<u8>> = Vec::new();
        let mut x: u32 = 0;
        while x < w
            invariant
                is_grid(noise_map.map@, w as int, h as int),
                x <= w,
                is_grid(map@, x as int, h as int),
                forall|a: int, b: int| 0 <= a < x && 0 <= b < h ==> #[trigger] map@[a]@[b]
                    == height_color(self.colors@, noise_map.map@[a]@[b] as int),
                gap is None ==> forall|a: int, b: int| 0 <= a < x && 0 <= b < h ==> #[trigger] map@[a]@[b] != 0,
                gap matches Some((gx, gy)) ==> {
                    &&& gx < x && gy < h
                    &&& map@[gx as int]@[gy as int] == 0
                    &&& forall|a: int, b: int|
                        0 <= a < x && 0 <= b < h && (a < gx || (a == gx && b < gy)) ==> #[trigger] map@[a]@[b] != 0
                },
            decreases w - x,
        {
            let ghost before = map@;
            let mut col: Vec<u8> = Vec::new();
            let mut y: u32 = 0;
            while y < h
                invariant
                    is_grid(noise_map.map@, w as int, h as int),
                    x < w,
                    y <= h,
                    map@ == before,
                    is_grid(map@, x as int, h as int),
                    col@.len() == y,
                    forall|b: int| 0 <= b < y ==> #[trigger] col@[b]
                        == height_color(self.colors@, noise_map.map@[x as int]@[b] as int),
                    gap is None ==> forall|a: int, b: int| 0 <= a < x && 0 <= b < h ==> #[trigger] map@[a]@[b] != 0,
                    gap is None ==> forall|b: int| 0 <= b < y ==> #[trigger] col@[b] != 0,
                    gap matches Some((gx, gy)) ==> {
                        &&& gx <= x && gy < h
                        &&& gx < x ==> map@[gx as int]@[gy as int] == 0
                        &&& forall|a: int, b: int|
                            0 <= a < x && 0 <= b < h && (a < gx || (a == gx && b < gy)) ==> #[trigger] map@[a]@[b] != 0
                        &&& gx == x ==> {
                            &&& gy < y
                            &&& col@[gy as int] == 0
                            &&& forall|b: int| 0 <= b < gy ==> #[trigger] col@[b] != 0
                            &&& forall|a: int, b: int| 0 <= a < x && 0 <= b < h ==> #[trigger] map@[a]@[b] != 0
                        }
                    },
                decreases h - y,
            {
                assert(noise_map.map@[x as int]@.len() == h);
                let c = self.color_for_height(noise_map.map[x as usize][y as usize] as u64);
                if c == 0 && gap.is_none() {
                    gap = Some((x, y));
                }
                col.push(c);
                y = y + 1;
            }
            map.push(col);
            proof {
                assert forall|a: int| 0 <= a < x + 1 implies (#[trigger] map@[a])@.len() == h by {
                    if a < x {
                        assert(map@[a] == before[a]);
                    }
                }
                assert forall|a: int, b: int| 0 <= a < x + 1 && 0 <= b < h implies #[trigger] map@[a]@[b]
                    == height_color(self.colors@, noise_map.map@[a]@[b] as int) by {
                    if a < x {
                        assert(map@[a] == before[a]);
                    }
                }
                assert(forall|a: int| 0 <= a < x ==> map@[a] == before[a]);
                assert(map@[x as int] == col);
            }
            x = x + 1;
        }
        self.map = map;
        match gap {
            None => Ok(()),
            Some((gx, gy)) => {
                assert(self.map@[gx as int]@[gy as int] == 0);
                Err(MapError::Uncovered { x: gx, y: gy })
            },
        }
    }

    /// The colour of the first level band that contains `level`, if any.
    pub fn classify(&self, level: u64) -> (r: Option<u8>)
        ensures
            r == level_color(self.colors@, level as int),
    {
        let ghost ts = self.colors@;
        assert(ts.subrange(0, ts.len() as int) =~= ts);
        let mut i: usize = 0;
        while i < self.colors.len()
            invariant
                ts == self.colors@,
                i <= ts.len(),
                level_color(ts, level as int) == level_color(ts.subrange(i as int, ts.len() as int), level as int),
            decreases ts.len() - i,
        {
            let ghost rest = ts.subrange(i as int, ts.len() as int);
            assert(rest.drop_first() =~= ts.subrange(i + 1, ts.len() as int));
            assert(rest[0] == ts[i as int]);
            let t = &self.colors[i];
            if !t.is_threshold() && t.matches(level) {
                return Some(t.color_index);
            }
            i = i + 1;
        }
        assert(ts.subrange(i as int, ts.len() as int).len() == 0);
        None
    }
}

} // verus!
