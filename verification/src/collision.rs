//! Broad-phase 2D collision engine: axis-aligned bounding boxes tagged with
//! a layer bit, a collision mask and an owner id, stored in slot arenas with
//! free-list reuse, with pairwise minimum-translation-vector resolution and
//! region queries.
//!
//! Coordinates are fixed-point world milli-units held in `i64`.

use vstd::prelude::*;

verus! {

/// Bound on any coordinate held in an [`AABB`]; large enough for every box
/// the game builds (including sword hitboxes computed from hostile wire
/// input), small enough that all arithmetic below stays inside `i64`.
pub const COORD_LIMIT: i64 = 0x10_0000_0000_0000;

/// Axis-aligned bounding box `(x, y, w, h)` in world milli-units.
#[derive(Clone, Copy, Debug, PartialEq, Eq, Structural)]
pub struct AABB {
    pub x: i64,
    pub y: i64,
    pub w: i64,
    pub h: i64,
}

impl AABB {
    /// All coordinates in range and extents non-negative.
    pub open spec fn wf(&self) -> bool {
        &&& -COORD_LIMIT <= self.x <= COORD_LIMIT
        &&& -COORD_LIMIT <= self.y <= COORD_LIMIT
        &&& 0 <= self.w <= COORD_LIMIT
        &&& 0 <= self.h <= COORD_LIMIT
    }

    pub fn new(x: i64, y: i64, w: i64, h: i64) -> (r: AABB)
        ensures
            r == (AABB { x, y, w, h }),
    {
        AABB { x, y, w, h }
    }

    pub fn from_vec(pos: (i64, i64), size: (i64, i64)) -> (r: AABB)
        ensures
            r == (AABB { x: pos.0, y: pos.1, w: size.0, h: size.1 }),
    {
        AABB { x: pos.0, y: pos.1, w: size.0, h: size.1 }
    }

    /// Inclusive-boundary overlap: the projections intersect on both axes.
    pub open spec fn spec_overlaps(self, b: AABB) -> bool {
        &&& ((b.x >= self.x && b.x <= self.x + self.w) || (self.x >= b.x && self.x <= b.x + b.w))
        &&& ((b.y >= self.y && b.y <= self.y + self.h) || (self.y >= b.y && self.y <= b.y + b.h))
    }

    pub fn overlaps(&self, aabb: AABB) -> (r: bool)
        requires
            self.wf(),
            aabb.wf(),
        ensures
            r == self.spec_overlaps(aabb),
    {
        let a = self;
        let b = &aabb;
        let coll_x = (b.x >= a.x && b.x <= a.x + a.w) || (a.x >= b.x && a.x <= b.x + b.w);
        let coll_y = (b.y >= a.y && b.y <= a.y + a.h) || (a.y >= b.y && a.y <= b.y + b.h);
        coll_x && coll_y
    }
}

pub open spec fn imax(x: int, y: int) -> int {
    if x > y {
        x
    } else {
        y
    }
}

pub open spec fn iclamp(v: int, lo: int, hi: int) -> int {
    if v < lo {
        lo
    } else if v > hi {
        hi
    } else {
        v
    }
}

/// Division truncated toward zero (the machine's signed division), defined
/// for a positive divisor.
pub open spec fn div_trunc(p: int, q: int) -> int {
    if p >= 0 {
        p / q
    } else {
        -((-p) / q)
    }
}

/// Slab crossing times of one axis as exact fractions over a positive
/// denominator: the ray coordinate `o + t*d` lies inside `[p0, p1]` for
/// `lo/q <= t <= hi/q`. Defined for `d != 0`.
pub open spec fn os_interval(p0: int, p1: int, o: int, d: int) -> (int, int, int) {
    if d > 0 {
        (p0 - o, p1 - o, d)
    } else {
        (o - p1, o - p0, -d)
    }
}

impl AABB {
    /// The point of the box hit at ray time `a/q`, each coordinate clamped
    /// into the box to absorb the rounding of the division.
    pub open spec fn spec_tocka_zadetka(
        self,
        o: (i64, i64),
        d: (i64, i64),
        a: int,
        q: int,
    ) -> Option<(i64, i64)> {
        let px = iclamp(o.0 + div_trunc(d.0 * a, q), self.x as int, self.x + self.w);
        let py = iclamp(o.1 + div_trunc(d.1 * a, q), self.y as int, self.y + self.h);
        Some((px as i64, py as i64))
    }

    /// Exact slab test of the ray `o + t*d`, `t >= 0`, against the box:
    /// `None` when the ray misses, otherwise the first point of the box the
    /// ray reaches.
    pub open spec fn spec_ray_hit(self, o: (i64, i64), d: (i64, i64)) -> Option<(i64, i64)> {
        let x0 = self.x as int;
        let x1 = self.x + self.w;
        let y0 = self.y as int;
        let y1 = self.y + self.h;
        if d.0 == 0 && !(x0 <= o.0 <= x1) {
            None
        } else if d.1 == 0 && !(y0 <= o.1 <= y1) {
            None
        } else if d.0 == 0 && d.1 == 0 {
            Some(o)
        } else if d.1 == 0 {
            let iv = os_interval(x0, x1, o.0 as int, d.0 as int);
            if iv.1 < 0 {
                None
            } else if iv.0 <= 0 {
                Some(o)
            } else {
                self.spec_tocka_zadetka(o, d, iv.0, iv.2)
            }
        } else if d.0 == 0 {
            let iv = os_interval(y0, y1, o.1 as int, d.1 as int);
            if iv.1 < 0 {
                None
            } else if iv.0 <= 0 {
                Some(o)
            } else {
                self.spec_tocka_zadetka(o, d, iv.0, iv.2)
            }
        } else {
            let ivx = os_interval(x0, x1, o.0 as int, d.0 as int);
            let ivy = os_interval(y0, y1, o.1 as int, d.1 as int);
            let slox = ivx.0 * ivy.2;
            let shix = ivx.1 * ivy.2;
            let sloy = ivy.0 * ivx.2;
            let shiy = ivy.1 * ivx.2;
            let ste = imax(imax(slox, sloy), 0);
            if ste <= shix && ste <= shiy {
                if ste == 0 {
                    Some(o)
                } else if slox >= sloy {
                    self.spec_tocka_zadetka(o, d, ivx.0, ivx.2)
                } else {
                    self.spec_tocka_zadetka(o, d, ivy.0, ivy.2)
                }
            } else {
                None
            }
        }
    }

    /// First point at which the ray from `pozicija` along `smer` meets the
    /// box, or `None` when it never does. Combat casts this ray from the
    /// attacker's weapon origin along its facing direction.
    pub fn ray_hit(&self, pozicija: (i64, i64), smer: (i64, i64)) -> (r: Option<(i64, i64)>)
        requires
            self.wf(),
            -COORD_LIMIT <= pozicija.0 <= COORD_LIMIT,
            -COORD_LIMIT <= pozicija.1 <= COORD_LIMIT,
            -COORD_LIMIT <= smer.0 <= COORD_LIMIT,
            -COORD_LIMIT <= smer.1 <= COORD_LIMIT,
        ensures
            r == self.spec_ray_hit(pozicija, smer),
    {
        let x0 = self.x;
        let x1 = self.x + self.w;
        let y0 = self.y;
        let y1 = self.y + self.h;
        let (ox, oy) = pozicija;
        let (dx, dy) = smer;
        if dx == 0 && !(x0 <= ox && ox <= x1) {
            return None;
        }
        if dy == 0 && !(y0 <= oy && oy <= y1) {
            return None;
        }
        if dx == 0 && dy == 0 {
            return Some(pozicija);
        }
        if dy == 0 {
            let (lo, hi, q) = os_interval_i64(x0, x1, ox, dx);
            if hi < 0 {
                return None;
            }
            if lo <= 0 {
                return Some(pozicija);
            }
            return Some(self.tocka_zadetka(pozicija, smer, lo, q));
        }
        if dx == 0 {
            let (lo, hi, q) = os_interval_i64(y0, y1, oy, dy);
            if hi < 0 {
                return None;
            }
            if lo <= 0 {
                return Some(pozicija);
            }
            return Some(self.tocka_zadetka(pozicija, smer, lo, q));
        }
        let (lox, hix, qx) = os_interval_i64(x0, x1, ox, dx);
        let (loy, hiy, qy) = os_interval_i64(y0, y1, oy, dy);
        let slox = mul_i128(lox as i128, qy as i128);
        let shix = mul_i128(hix as i128, qy as i128);
        let sloy = mul_i128(loy as i128, qx as i128);
        let shiy = mul_i128(hiy as i128, qx as i128);
        let mut ste = if slox > sloy {
            slox
        } else {
            sloy
        };
        if ste < 0 {
            ste = 0;
        }
        if ste <= shix && ste <= shiy {
            if ste == 0 {
                Some(pozicija)
            } else if slox >= sloy {
                Some(self.tocka_zadetka(pozicija, smer, lox, qx))
            } else {
                Some(self.tocka_zadetka(pozicija, smer, loy, qy))
            }
        } else {
            None
        }
    }

    /// Executable mirror of [`AABB::spec_tocka_zadetka`].
    fn tocka_zadetka(&self, o: (i64, i64), d: (i64, i64), a: i64, q: i64) -> (r: (i64, i64))
        requires
            self.wf(),
            q > 0,
            -4 * COORD_LIMIT <= a <= 4 * COORD_LIMIT,
            -COORD_LIMIT <= o.0 <= COORD_LIMIT,
            -COORD_LIMIT <= o.1 <= COORD_LIMIT,
            -COORD_LIMIT <= d.0 <= COORD_LIMIT,
            -COORD_LIMIT <= d.1 <= COORD_LIMIT,
        ensures
            Some(r) == self.spec_tocka_zadetka(o, d, a as int, q as int),
    {
        let px0 = o.0 as i128 + div_trunc_i128(mul_i128(d.0 as i128, a as i128), q as i128);
        let py0 = o.1 as i128 + div_trunc_i128(mul_i128(d.1 as i128, a as i128), q as i128);
        let px = clamp_i128(px0, self.x as i128, self.x as i128 + self.w as i128);
        let py = clamp_i128(py0, self.y as i128, self.y as i128 + self.h as i128);
        (px as i64, py as i64)
    }
}

/// Executable mirror of [`os_interval`].
fn os_interval_i64(p0: i64, p1: i64, o: i64, d: i64) -> (r: (i64, i64, i64))
    requires
        d != 0,
        -COORD_LIMIT <= p0 <= 2 * COORD_LIMIT,
        -COORD_LIMIT <= p1 <= 2 * COORD_LIMIT,
        -COORD_LIMIT <= o <= COORD_LIMIT,
        -COORD_LIMIT <= d <= COORD_LIMIT,
    ensures
        (r.0 as int, r.1 as int, r.2 as int) == os_interval(p0 as int, p1 as int, o as int, d as int),
        r.2 > 0,
        -4 * COORD_LIMIT <= r.0 <= 4 * COORD_LIMIT,
        -4 * COORD_LIMIT <= r.1 <= 4 * COORD_LIMIT,
{
    if d > 0 {
        (p0 - o, p1 - o, d)
    } else {
        (o - p1, o - p0, -d)
    }
}

/// Product of two factors small enough that it cannot overflow.
pub(crate) fn mul_i128(x: i128, y: i128) -> (r: i128)
    requires
        -0x1000_0000_0000_0000 <= x <= 0x1000_0000_0000_0000,
        -0x1000_0000_0000_0000 <= y <= 0x1000_0000_0000_0000,
    ensures
        r as int == x as int * y as int,
        -0x100_0000_0000_0000_0000_0000_0000_0000 <= r as int
            <= 0x100_0000_0000_0000_0000_0000_0000_0000,
{
    proof {
        assert(-0x100_0000_0000_0000_0000_0000_0000_0000 <= x as int * y as int
            <= 0x100_0000_0000_0000_0000_0000_0000_0000) by (nonlinear_arith)
            requires
                -0x1000_0000_0000_0000 <= x as int <= 0x1000_0000_0000_0000,
                -0x1000_0000_0000_0000 <= y as int <= 0x1000_0000_0000_0000;
    }
    x * y
}

/// Division truncated toward zero, computed without relying on the sign
/// behaviour of the machine division.
pub(crate) fn div_trunc_i128(p: i128, q: i128) -> (r: i128)
    requires
        q > 0,
        i128::MIN < p,
    ensures
        r as int == div_trunc(p as int, q as int),
        iabs(r as int) <= iabs(p as int),
{
    proof {
        if p >= 0 {
            assert(0 <= p as int / q as int <= p as int) by (nonlinear_arith)
                requires
                    q as int > 0,
                    p as int >= 0;
        } else {
            let np: int = -(p as int);
            assert(0 <= np / (q as int) <= np) by (nonlinear_arith)
                requires
                    q as int > 0,
                    np >= 0;
        }
    }
    if p >= 0 {
        p / q
    } else {
        -((-p) / q)
    }
}

fn clamp_i128(v: i128, lo: i128, hi: i128) -> (r: i128)
    requires
        lo <= hi,
    ensures
        r as int == iclamp(v as int, lo as int, hi as int),
{
    if v < lo {
        lo
    } else if v > hi {
        hi
    } else {
        v
    }
}

/// Slot arena: occupied slots hold `Some`, freed slots hold `None` and their
/// indices sit on the `free` stack, most recently freed on top.
pub struct FreeList<T> {
    pub elements: Vec<Option<T>>,
    pub free: Vec<usize>,
}

/// Index that the next insertion into the arena will occupy.
pub open spec fn model_vstavi_index<T>(elements: Seq<Option<T>>, free: Seq<usize>) -> int {
    if free.len() > 0 {
        free.last() as int
    } else {
        elements.len() as int
    }
}

/// Arena contents after inserting `el`.
pub open spec fn model_vstavi<T>(elements: Seq<Option<T>>, free: Seq<usize>, el: T) -> (
    Seq<Option<T>>,
    Seq<usize>,
) {
    if free.len() > 0 {
        (elements.update(free.last() as int, Some(el)), free.drop_last())
    } else {
        (elements.push(Some(el)), free)
    }
}

/// Arena contents after freeing slot `index`.
pub open spec fn model_izbrisi<T>(elements: Seq<Option<T>>, free: Seq<usize>, index: usize) -> (
    Seq<Option<T>>,
    Seq<usize>,
) {
    (elements.update(index as int, None), free.push(index))
}

/// A freed slot index is reused by the very next insertion: freeing `index`
/// and then inserting lands exactly on `index` (stack discipline).
pub proof fn lemma_ponovna_uporaba_slota<T>(
    elements: Seq<Option<T>>,
    free: Seq<usize>,
    index: usize,
)
    ensures
        model_vstavi_index(
            model_izbrisi(elements, free, index).0,
            model_izbrisi(elements, free, index).1,
        ) == index as int,
{
}

impl<T> FreeList<T> {
    pub open spec fn wf(&self) -> bool {
        &&& forall|k: int|
            0 <= k < self.free@.len() ==> (#[trigger] self.free@[k]) < self.elements@.len()
        &&& forall|k: int, l: int|
            0 <= k < l < self.free@.len() ==> self.free@[k] != self.free@[l]
        &&& forall|k: int|
            0 <= k < self.free@.len() ==> self.elements@[#[trigger] self.free@[k] as int] is None
        &&& forall|k: int|
            0 <= k < self.elements@.len() && (#[trigger] self.elements@[k]) is None
                ==> self.free@.contains(k as usize)
    }

    pub fn new() -> (r: Self)
        ensures
            r.wf(),
            r.elements@ == Seq::<Option<T>>::empty(),
            r.free@ == Seq::<usize>::empty(),
    {
        Self { elements: Vec::new(), free: Vec::new() }
    }

    /// Inserts `el`, reusing the most recently freed slot before growing.
    pub fn vstavi(&mut self, el: T) -> (i: usize)
        requires
            old(self).wf(),
        ensures
            final(self).wf(),
            i as int == model_vstavi_index(old(self).elements@, old(self).free@),
            final(self).elements@ == model_vstavi(old(self).elements@, old(self).free@, el).0,
            final(self).free@ == model_vstavi(old(self).elements@, old(self).free@, el).1,
            i < final(self).elements@.len(),
            final(self).elements@[i as int] == Some(el),
    {
        if self.free.len() > 0 {
            let i = self.free.pop().unwrap();
            proof {
                assert(old(self).free@.contains(i));
                assert(exists|k: int|
                    0 <= k < old(self).free@.len() && old(self).free@[k] == i);
            }
            self.elements.set(i, Some(el));
            proof {
                lemma_vstavi_wf_reuse(old(self).elements@, old(self).free@, self.elements@, self.free@);
            }
            i
        } else {
            self.elements.push(Some(el));
            let i = self.elements.len() - 1;
            proof {
                assert forall|k: int|
                    0 <= k < self.elements@.len() && (#[trigger] self.elements@[k]) is None
                        implies self.free@.contains(k as usize) by {
                    assert(k < old(self).elements@.len());
                    assert(old(self).elements@[k] is None);
                }
                assert(self.elements@.drop_last() =~= old(self).elements@);
            }
            i
        }
    }

    /// Frees an occupied slot; its index goes on top of the free stack.
    /// Freeing a stale slot is a contract violation, not a runtime case.
    pub fn izbrisi(&mut self, index: usize)
        requires
            old(self).wf(),
            index < old(self).elements@.len(),
            old(self).elements@[index as int] is Some,
        ensures
            final(self).wf(),
            final(self).elements@ == model_izbrisi(old(self).elements@, old(self).free@, index).0,
            final(self).free@ == model_izbrisi(old(self).elements@, old(self).free@, index).1,
    {
        proof {
            if old(self).free@.contains(index) {
                let k = choose|k: int|
                    0 <= k < old(self).free@.len() && old(self).free@[k] == index;
                assert(old(self).elements@[old(self).free@[k] as int] is None);
            }
        }
        self.elements.set(index, None);
        self.free.push(index);
        proof {
            assert forall|k: int|
                0 <= k < self.elements@.len() && (#[trigger] self.elements@[k]) is None
                    implies self.free@.contains(k as usize) by {
                if k == index as int {
                    assert(self.free@.last() == index);
                } else {
                    assert(old(self).free@.contains(k as usize));
                    let j = choose|j: int|
                        0 <= j < old(self).free@.len() && old(self).free@[j] == k as usize;
                    assert(self.free@[j] == k as usize);
                }
            }
        }
    }
}

/// Reusing the top of the free stack keeps the arena well formed.
proof fn lemma_vstavi_wf_reuse<T>(
    old_elements: Seq<Option<T>>,
    old_free: Seq<usize>,
    new_elements: Seq<Option<T>>,
    new_free: Seq<usize>,
)
    requires
        old_free.len() > 0,
        old_elements.len() <= usize::MAX,
        forall|k: int| 0 <= k < old_free.len() ==> (#[trigger] old_free[k]) < old_elements.len(),
        forall|k: int, l: int| 0 <= k < l < old_free.len() ==> old_free[k] != old_free[l],
        forall|k: int| 0 <= k < old_free.len() ==> old_elements[#[trigger] old_free[k] as int] is None,
        forall|k: int|
            0 <= k < old_elements.len() && (#[trigger] old_elements[k]) is None
                ==> old_free.contains(k as usize),
        new_free == old_free.drop_last(),
        new_elements == old_elements.update(old_free.last() as int, Some(
            new_elements[old_free.last() as int]->0,
        )),
        new_elements[old_free.last() as int] is Some,
    ensures
        forall|k: int| 0 <= k < new_free.len() ==> (#[trigger] new_free[k]) < new_elements.len(),
        forall|k: int, l: int| 0 <= k < l < new_free.len() ==> new_free[k] != new_free[l],
        forall|k: int| 0 <= k < new_free.len() ==> new_elements[#[trigger] new_free[k] as int] is None,
        forall|k: int|
            0 <= k < new_elements.len() && (#[trigger] new_elements[k]) is None
                ==> new_free.contains(k as usize),
{
    let last = old_free.last();
    assert forall|k: int|
        0 <= k < new_free.len() implies new_elements[#[trigger] new_free[k] as int] is None by {
        assert(old_free[k] != last);
    }
    assert forall|k: int|
        0 <= k < new_elements.len() && (#[trigger] new_elements[k]) is None
            implies new_free.contains(k as usize) by {
        assert(k != last as int);
        assert(old_elements[k] is None);
        assert(old_free.contains(k as usize));
        let j = choose|j: int| 0 <= j < old_free.len() && old_free[j] == k as usize;
        assert(k as usize as int == k);
        assert(j != old_free.len() - 1);
        assert(new_free[j] == k as usize);
    }
}

pub open spec fn imin(x: int, y: int) -> int {
    if x < y {
        x
    } else {
        y
    }
}

pub open spec fn iabs(x: int) -> int {
    if x < 0 {
        -x
    } else {
        x
    }
}

pub const LAYER_MAP: u32 = 1;

pub const LAYER_PLAYER: u32 = 2;

pub const LAYER_SWORD: u32 = 4;

/// Exactly one bit set.
pub open spec fn en_bit(l: u32) -> bool {
    l != 0 && l & ((l - 1) as u32) == 0
}

/// The three fixed layers are single bits.
pub proof fn lemma_plasti_en_bit()
    ensures
        en_bit(LAYER_MAP),
        en_bit(LAYER_PLAYER),
        en_bit(LAYER_SWORD),
{
    assert(1u32 & 0u32 == 0 && 2u32 & 1u32 == 0 && 4u32 & 3u32 == 0) by (bit_vector);
}

/// A registered body: its box, its layer bit, the mask of layers it is
/// willing to collide with, and the id of the entity that owns it.
#[derive(Clone, Copy, Debug, PartialEq, Eq, Structural)]
pub struct Objekt {
    pub aabb: AABB,
    pub layer: u32,
    pub mask: u32,
    pub user_id: u32,
}

pub open spec fn objekt_wf(o: Objekt) -> bool {
    o.aabb.wf() && en_bit(o.layer)
}

/// Owning handle to a slot in the dynamic arena. Only the registry can read
/// its index; releasing it (by value) removes the collider.
pub struct DinamicenAABBRef {
    i: usize,
}

impl DinamicenAABBRef {
    pub closed spec fn idx(&self) -> int {
        self.i as int
    }
}

/// Owning handle to a slot in the static arena.
pub struct StaticenAABBRef {
    i: usize,
}

impl StaticenAABBRef {
    pub closed spec fn idx(&self) -> int {
        self.i as int
    }
}

/// The simulation context: the two collider arenas. Owned by the frame loop
/// and passed by reference to every subsystem that needs it.
pub struct Physics {
    pub dinamicni: FreeList<Objekt>,
    pub staticni: FreeList<Objekt>,
}

/// Number of occupied slots in an arena.
pub open spec fn st_zasedenih<T>(s: Seq<Option<T>>) -> nat
    decreases s.len(),
{
    if s.len() == 0 {
        0
    } else {
        st_zasedenih(s.drop_last()) + if s.last() is Some {
            1nat
        } else {
            0nat
        }
    }
}

impl Physics {
    /// How many dynamic bodies are currently registered.
    pub fn st_dinamicnih_obj(&self) -> (r: usize)
        ensures
            r == st_zasedenih(self.din()),
    {
        prestej(&self.dinamicni.elements)
    }

    /// How many static bodies are currently registered.
    pub fn st_staticnih_obj(&self) -> (r: usize)
        ensures
            r == st_zasedenih(self.sta()),
    {
        prestej(&self.staticni.elements)
    }
}

fn prestej(v: &Vec<Option<Objekt>>) -> (r: usize)
    ensures
        r == st_zasedenih(v@),
{
    let mut r: usize = 0;
    let n = v.len();
    let mut i: usize = 0;
    while i < n
        invariant
            n == v@.len(),
            i <= n,
            r == st_zasedenih(v@.take(i as int)),
            r <= i,
        decreases n - i,
    {
        if v[i].is_some() {
            r = r + 1;
        }
        proof {
            assert(v@.take(i + 1 as int).drop_last() =~= v@.take(i as int));
            assert(v@.take(i + 1 as int).last() == v@[i as int]);
        }
        i = i + 1;
    }
    proof {
        assert(v@.take(n as int) =~= v@);
    }
    r
}

/// Both directions of the layer/mask filter: each body's layer intersects
/// the other body's mask.
pub open spec fn maski_se_sekata(obj_a: Objekt, obj_b: Objekt) -> bool {
    (obj_a.layer & obj_b.mask) != 0 && (obj_b.layer & obj_a.mask) != 0
}

/// Penetration depth along x: the smaller of the two possible overlap
/// depths of the pair.
pub open spec fn spec_pen_x(a: AABB, b: AABB) -> int {
    imin(iabs(b.x + b.w - a.x), iabs(a.x + a.w - b.x))
}

/// Penetration depth along y.
pub open spec fn spec_pen_y(a: AABB, b: AABB) -> int {
    imin(iabs(b.y + b.h - a.y), iabs(a.y + a.h - b.y))
}

/// Minimum-translation-vector resolution of one pair. A pair is resolved
/// only if the layer/mask filter passes both ways and the boxes overlap;
/// the correction acts along the axis of smaller penetration and is split
/// evenly, or falls entirely on `b` when `a_mirno` marks `a` immovable.
/// A correction that would push a coordinate out of the representable
/// range is skipped whole; world-scale coordinates never come near it.
pub open spec fn spec_resi_trk(obj_a: Objekt, obj_b: Objekt, a_mirno: bool) -> (Objekt, Objekt) {
    if !maski_se_sekata(obj_a, obj_b) || !obj_a.aabb.spec_overlaps(obj_b.aabb) {
        (obj_a, obj_b)
    } else {
        let a = obj_a.aabb;
        let b = obj_b.aabb;
        let pen_x = spec_pen_x(a, b);
        let pen_y = spec_pen_y(a, b);
        if pen_x < pen_y {
            let d_a = if a_mirno {
                0
            } else {
                pen_x / 2
            };
            let d_b = pen_x - d_a;
            let nax = if a.x > b.x {
                a.x + d_a
            } else {
                a.x - d_a
            };
            let nbx = if a.x > b.x {
                b.x - d_b
            } else {
                b.x + d_b
            };
            if -COORD_LIMIT <= nax <= COORD_LIMIT && -COORD_LIMIT <= nbx <= COORD_LIMIT {
                (
                    Objekt { aabb: AABB { x: nax as i64, ..a }, ..obj_a },
                    Objekt { aabb: AABB { x: nbx as i64, ..b }, ..obj_b },
                )
            } else {
                (obj_a, obj_b)
            }
        } else {
            let d_a = if a_mirno {
                0
            } else {
                pen_y / 2
            };
            let d_b = pen_y - d_a;
            let nay = if a.y > b.y {
                a.y + d_a
            } else {
                a.y - d_a
            };
            let nby = if a.y > b.y {
                b.y - d_b
            } else {
                b.y + d_b
            };
            if -COORD_LIMIT <= nay <= COORD_LIMIT && -COORD_LIMIT <= nby <= COORD_LIMIT {
                (
                    Objekt { aabb: AABB { y: nay as i64, ..a }, ..obj_a },
                    Objekt { aabb: AABB { y: nby as i64, ..b }, ..obj_b },
                )
            } else {
                (obj_a, obj_b)
            }
        }
    }
}

/// Resolves one pair; `a_mirno` marks `obj_a` immovable (static geometry).
pub fn resi_trk(obj_a: Objekt, obj_b: Objekt, a_mirno: bool) -> (r: (Objekt, Objekt))
    requires
        objekt_wf(obj_a),
        objekt_wf(obj_b),
    ensures
        r == spec_resi_trk(obj_a, obj_b, a_mirno),
        objekt_wf(r.0),
        objekt_wf(r.1),
{
    if (obj_a.layer & obj_b.mask) == 0 || (obj_b.layer & obj_a.mask) == 0 {
        return (obj_a, obj_b);
    }
    if !obj_a.aabb.overlaps(obj_b.aabb) {
        return (obj_a, obj_b);
    }
    let a = obj_a.aabb;
    let b = obj_b.aabb;
    let dx1 = b.x + b.w - a.x;
    let dx2 = a.x + a.w - b.x;
    let pen_x = min_i64(abs_i64(dx1), abs_i64(dx2));
    let dy1 = b.y + b.h - a.y;
    let dy2 = a.y + a.h - b.y;
    let pen_y = min_i64(abs_i64(dy1), abs_i64(dy2));
    if pen_x < pen_y {
        let d_a: i64 = if a_mirno {
            0
        } else {
            pen_x / 2
        };
        let d_b = pen_x - d_a;
        let nax = if a.x > b.x {
            a.x + d_a
        } else {
            a.x - d_a
        };
        let nbx = if a.x > b.x {
            b.x - d_b
        } else {
            b.x + d_b
        };
        if -COORD_LIMIT <= nax && nax <= COORD_LIMIT && -COORD_LIMIT <= nbx && nbx
            <= COORD_LIMIT {
            (
                Objekt { aabb: AABB { x: nax, ..a }, ..obj_a },
                Objekt { aabb: AABB { x: nbx, ..b }, ..obj_b },
            )
        } else {
            (obj_a, obj_b)
        }
    } else {
        let d_a: i64 = if a_mirno {
            0
        } else {
            pen_y / 2
        };
        let d_b = pen_y - d_a;
        let nay = if a.y > b.y {
            a.y + d_a
        } else {
            a.y - d_a
        };
        let nby = if a.y > b.y {
            b.y - d_b
        } else {
            b.y + d_b
        };
        if -COORD_LIMIT <= nay && nay <= COORD_LIMIT && -COORD_LIMIT <= nby && nby
            <= COORD_LIMIT {
            (
                Objekt { aabb: AABB { y: nay, ..a }, ..obj_a },
                Objekt { aabb: AABB { y: nby, ..b }, ..obj_b },
            )
        } else {
            (obj_a, obj_b)
        }
    }
}

fn min_i64(x: i64, y: i64) -> (r: i64)
    ensures
        r as int == imin(x as int, y as int),
{
    if x < y {
        x
    } else {
        y
    }
}

fn abs_i64(x: i64) -> (r: i64)
    requires
        x != i64::MIN,
    ensures
        r as int == iabs(x as int),
{
    if x < 0 {
        -x
    } else {
        x
    }
}

/// Under overlap, all four candidate depths of a well-formed pair are
/// non-negative, so the penetration really is the smaller overlap depth.
pub proof fn lemma_globine_nenegativne(a: AABB, b: AABB)
    requires
        a.wf(),
        b.wf(),
        a.spec_overlaps(b),
    ensures
        b.x + b.w - a.x >= 0,
        a.x + a.w - b.x >= 0,
        b.y + b.h - a.y >= 0,
        a.y + a.h - b.y >= 0,
{
}

/// Dynamic-vs-static resolution never moves the static box.
pub proof fn lemma_resi_trk_statika_miruje(obj_a: Objekt, obj_b: Objekt)
    ensures
        spec_resi_trk(obj_a, obj_b, true).0 == obj_a,
{
}

/// Resolving an overlapping pair with intersecting masks moves the boxes
/// apart along the axis of smaller penetration by exactly that penetration,
/// split between the two shares, strictly reducing the overlap depth on the
/// side it separates (when the boxes do more than touch) while leaving the
/// other axis untouched.
pub proof fn lemma_resi_trk_zmanjsa(obj_a: Objekt, obj_b: Objekt, a_mirno: bool)
    requires
        objekt_wf(obj_a),
        objekt_wf(obj_b),
        -COORD_LIMIT / 4 <= obj_a.aabb.x,
        obj_a.aabb.x <= COORD_LIMIT / 4,
        -COORD_LIMIT / 4 <= obj_a.aabb.y,
        obj_a.aabb.y <= COORD_LIMIT / 4,
        obj_a.aabb.w <= COORD_LIMIT / 4,
        obj_a.aabb.h <= COORD_LIMIT / 4,
        -COORD_LIMIT / 4 <= obj_b.aabb.x,
        obj_b.aabb.x <= COORD_LIMIT / 4,
        -COORD_LIMIT / 4 <= obj_b.aabb.y,
        obj_b.aabb.y <= COORD_LIMIT / 4,
        obj_b.aabb.w <= COORD_LIMIT / 4,
        obj_b.aabb.h <= COORD_LIMIT / 4,
        maski_se_sekata(obj_a, obj_b),
        obj_a.aabb.spec_overlaps(obj_b.aabb),
    ensures
        ({
            let a = obj_a.aabb;
            let b = obj_b.aabb;
            let na = spec_resi_trk(obj_a, obj_b, a_mirno).0.aabb;
            let nb = spec_resi_trk(obj_a, obj_b, a_mirno).1.aabb;
            &&& spec_pen_x(a, b) >= 0
            &&& spec_pen_y(a, b) >= 0
            &&& (spec_pen_x(a, b) < spec_pen_y(a, b) ==> {
                &&& na.y == a.y && nb.y == b.y && na.w == a.w && nb.w == b.w
                &&& (a.x > b.x ==> (nb.x + nb.w) - na.x == (b.x + b.w - a.x) - spec_pen_x(a, b)
                    && (b.x + b.w - a.x) - spec_pen_x(a, b) >= 0)
                &&& (a.x <= b.x ==> (na.x + na.w) - nb.x == (a.x + a.w - b.x) - spec_pen_x(a, b)
                    && (a.x + a.w - b.x) - spec_pen_x(a, b) >= 0)
                &&& iabs(na.x - a.x) + iabs(nb.x - b.x) == spec_pen_x(a, b)
                &&& (a_mirno ==> na.x == a.x)
            })
            &&& (spec_pen_x(a, b) >= spec_pen_y(a, b) ==> {
                &&& na.x == a.x && nb.x == b.x && na.h == a.h && nb.h == b.h
                &&& (a.y > b.y ==> (nb.y + nb.h) - na.y == (b.y + b.h - a.y) - spec_pen_y(a, b)
                    && (b.y + b.h - a.y) - spec_pen_y(a, b) >= 0)
                &&& (a.y <= b.y ==> (na.y + na.h) - nb.y == (a.y + a.h - b.y) - spec_pen_y(a, b)
                    && (a.y + a.h - b.y) - spec_pen_y(a, b) >= 0)
                &&& iabs(na.y - a.y) + iabs(nb.y - b.y) == spec_pen_y(a, b)
                &&& (a_mirno ==> na.y == a.y)
            })
        }),
{
    lemma_globine_nenegativne(obj_a.aabb, obj_b.aabb);
}

/// Resolves the pair at slots `i`, `j` (when both live) in place.
pub open spec fn model_resi_par(s: Seq<Option<Objekt>>, i: int, j: int) -> Seq<Option<Objekt>> {
    if 0 <= i < s.len() && 0 <= j < s.len() && s[i] is Some && s[j] is Some {
        let r = spec_resi_trk(s[i]->0, s[j]->0, false);
        s.update(i, Some(r.0)).update(j, Some(r.1))
    } else {
        s
    }
}

/// Resolves slot `i` against slots `j .. n` in order.
pub open spec fn model_din_vrstica(s: Seq<Option<Objekt>>, i: int, j: int, n: int) -> Seq<
    Option<Objekt>,
>
    decreases n - j,
{
    if j >= n {
        s
    } else {
        model_din_vrstica(model_resi_par(s, i, j), i, j + 1, n)
    }
}

/// All dynamic-dynamic pairs, upper triangle, rows `i .. n`.
pub open spec fn model_din_vse(s: Seq<Option<Objekt>>, i: int, n: int) -> Seq<Option<Objekt>>
    decreases n - i,
{
    if i >= n {
        s
    } else {
        model_din_vse(model_din_vrstica(s, i, i + 1, n), i + 1, n)
    }
}

/// Resolves every live dynamic slot `j .. n` against one static body.
pub open spec fn model_sta_vrstica(d: Seq<Option<Objekt>>, st_obj: Objekt, j: int, n: int) -> Seq<
    Option<Objekt>,
>
    decreases n - j,
{
    if j >= n {
        d
    } else {
        let d2 = if 0 <= j < d.len() && d[j] is Some {
            d.update(j, Some(spec_resi_trk(st_obj, d[j]->0, true).1))
        } else {
            d
        };
        model_sta_vrstica(d2, st_obj, j + 1, n)
    }
}

/// All static-dynamic pairs, static slots `i .. n`.
pub open spec fn model_sta_vse(
    d: Seq<Option<Objekt>>,
    st: Seq<Option<Objekt>>,
    i: int,
    n: int,
) -> Seq<Option<Objekt>>
    decreases n - i,
{
    if i >= n {
        d
    } else {
        let d2 = if 0 <= i < st.len() && st[i] is Some {
            model_sta_vrstica(d, st[i]->0, 0, d.len() as int)
        } else {
            d
        };
        model_sta_vse(d2, st, i + 1, n)
    }
}

/// One whole resolution pass over both arenas.
pub open spec fn model_resi_trke(d: Seq<Option<Objekt>>, st: Seq<Option<Objekt>>) -> Seq<
    Option<Objekt>,
> {
    model_sta_vse(model_din_vse(d, 0, d.len() as int), st, 0, st.len() as int)
}

/// Whether a live body passes the query filter: its layer intersects the
/// caller's mask and its box overlaps the region.
pub open spec fn zadetek(o: Objekt, area: AABB, mask: u32) -> bool {
    (mask & o.layer) > 0 && o.aabb.spec_overlaps(area)
}

/// The pairs a region query reports, in arena scan order.
pub open spec fn spec_area_query(s: Seq<Option<Objekt>>, area: AABB, mask: u32) -> Seq<(u32, AABB)>
    decreases s.len(),
{
    if s.len() == 0 {
        Seq::empty()
    } else {
        let prej = spec_area_query(s.drop_last(), area, mask);
        if s.last() is Some && zadetek(s.last()->0, area, mask) {
            prej.push(((s.last()->0).user_id, (s.last()->0).aabb))
        } else {
            prej
        }
    }
}

/// Some live slot projects to the pair `p` and passes the query filter.
pub open spec fn obstaja_zadetek(
    s: Seq<Option<Objekt>>,
    area: AABB,
    mask: u32,
    p: (u32, AABB),
) -> bool {
    exists|j: int|
        0 <= j < s.len() && s[j] is Some && zadetek(s[j]->0, area, mask) && p == (
        (s[j]->0).user_id,
        (s[j]->0).aabb,
        )
}

/// A region query reports exactly the live dynamic colliders whose layer
/// intersects the mask and whose box overlaps the region.
pub proof fn lemma_area_query_tocna(s: Seq<Option<Objekt>>, area: AABB, mask: u32)
    ensures
        forall|p: (u32, AABB)|
            #[trigger] spec_area_query(s, area, mask).contains(p) <==> obstaja_zadetek(
                s,
                area,
                mask,
                p,
            ),
    decreases s.len(),
{
    if s.len() > 0 {
        lemma_area_query_tocna(s.drop_last(), area, mask);
        let q = spec_area_query(s, area, mask);
        let prej = spec_area_query(s.drop_last(), area, mask);
        assert forall|p: (u32, AABB)| #[trigger] q.contains(p) implies obstaja_zadetek(
            s,
            area,
            mask,
            p,
        ) by {
            if prej.contains(p) {
                let j = choose|j: int|
                    0 <= j < s.drop_last().len() && s.drop_last()[j] is Some && zadetek(
                        s.drop_last()[j]->0,
                        area,
                        mask,
                    ) && p == ((s.drop_last()[j]->0).user_id, (s.drop_last()[j]->0).aabb);
                assert(s[j] == s.drop_last()[j]);
            } else {
                assert(s.last() is Some && zadetek(s.last()->0, area, mask));
                assert(p == ((s.last()->0).user_id, (s.last()->0).aabb));
                assert(s[s.len() - 1] is Some);
            }
        }
        assert forall|p: (u32, AABB)| obstaja_zadetek(s, area, mask, p) implies #[trigger] q
            .contains(p) by {
            let j = choose|j: int|
                0 <= j < s.len() && s[j] is Some && zadetek(s[j]->0, area, mask) && p == (
                (s[j]->0).user_id,
                (s[j]->0).aabb,
                );
            if j == s.len() - 1 {
                assert(q.last() == p);
            } else {
                assert(s.drop_last()[j] == s[j]);
                assert(prej.contains(p));
                let k = choose|k: int| 0 <= k < prej.len() && prej[k] == p;
                assert(q[k] == p);
            }
        }
    }
}

/// After a slot is freed, a region query can only report other slots: every
/// reported pair is witnessed by a live slot different from the freed one.
pub proof fn lemma_izbrisan_ni_v_poizvedbi(
    s: Seq<Option<Objekt>>,
    index: usize,
    area: AABB,
    mask: u32,
)
    requires
        index < s.len(),
    ensures
        forall|p: (u32, AABB)|
            #[trigger] spec_area_query(s.update(index as int, None), area, mask).contains(p)
                ==> exists|j: int|
                0 <= j < s.len() && j != index as int && s[j] is Some && zadetek(
                    s[j]->0,
                    area,
                    mask,
                ) && p == ((s[j]->0).user_id, (s[j]->0).aabb),
{
    let s2 = s.update(index as int, None);
    lemma_area_query_tocna(s2, area, mask);
    assert forall|p: (u32, AABB)|
        #[trigger] spec_area_query(s2, area, mask).contains(p) implies exists|j: int|
        0 <= j < s.len() && j != index as int && s[j] is Some && zadetek(s[j]->0, area, mask) && p
            == ((s[j]->0).user_id, (s[j]->0).aabb) by {
        let j = choose|j: int|
            0 <= j < s2.len() && s2[j] is Some && zadetek(s2[j]->0, area, mask) && p == (
            (s2[j]->0).user_id,
            (s2[j]->0).aabb,
            );
        assert(j != index as int);
        assert(s[j] == s2[j]);
    }
}

impl Physics {
    pub open spec fn wf(&self) -> bool {
        &&& self.dinamicni.wf()
        &&& self.staticni.wf()
        &&& forall|k: int|
            0 <= k < self.din().len() && (#[trigger] self.din()[k]) is Some ==> objekt_wf(
                self.din()[k]->0,
            )
        &&& forall|k: int|
            0 <= k < self.sta().len() && (#[trigger] self.sta()[k]) is Some ==> objekt_wf(
                self.sta()[k]->0,
            )
    }

    /// The dynamic arena's slots.
    pub open spec fn din(&self) -> Seq<Option<Objekt>> {
        self.dinamicni.elements@
    }

    /// The static arena's slots.
    pub open spec fn sta(&self) -> Seq<Option<Objekt>> {
        self.staticni.elements@
    }

    pub open spec fn veljaven_din(&self, r: DinamicenAABBRef) -> bool {
        0 <= r.idx() < self.din().len() && self.din()[r.idx()] is Some
    }

    pub open spec fn veljaven_sta(&self, r: StaticenAABBRef) -> bool {
        0 <= r.idx() < self.sta().len() && self.sta()[r.idx()] is Some
    }

    /// Fresh, empty simulation context.
    pub fn init() -> (r: Physics)
        ensures
            r.wf(),
            r.din() == Seq::<Option<Objekt>>::empty(),
            r.sta() == Seq::<Option<Objekt>>::empty(),
    {
        Physics { dinamicni: FreeList::new(), staticni: FreeList::new() }
    }

    /// Registers a moving body. The layer must be a single bit; anything
    /// else is a programming error, ruled out by contract.
    pub fn dodaj_dinamicen_obj(
        &mut self,
        aabb: AABB,
        layer: u32,
        mask: u32,
        user_id: u32,
    ) -> (r: DinamicenAABBRef)
        requires
            old(self).wf(),
            aabb.wf(),
            en_bit(layer),
        ensures
            final(self).wf(),
            r.idx() == model_vstavi_index(old(self).din(), old(self).dinamicni.free@),
            final(self).din() == model_vstavi(
                old(self).din(),
                old(self).dinamicni.free@,
                Objekt { aabb, layer, mask, user_id },
            ).0,
            final(self).dinamicni.free@ == model_vstavi(
                old(self).din(),
                old(self).dinamicni.free@,
                Objekt { aabb, layer, mask, user_id },
            ).1,
            final(self).staticni == old(self).staticni,
            final(self).veljaven_din(r),
            final(self).din()[r.idx()] == Some(Objekt { aabb, layer, mask, user_id }),
            forall|k: int|
                0 <= k < old(self).din().len() && k != r.idx() ==> final(self).din()[k] == old(
                    self,
                ).din()[k],
    {
        let i = self.dinamicni.vstavi(Objekt { aabb, layer, mask, user_id });
        DinamicenAABBRef { i }
    }

    /// Registers an immovable body.
    pub fn dodaj_staticen_obj(&mut self, aabb: AABB, layer: u32, mask: u32) -> (r: StaticenAABBRef)
        requires
            old(self).wf(),
            aabb.wf(),
            en_bit(layer),
        ensures
            final(self).wf(),
            r.idx() == model_vstavi_index(old(self).sta(), old(self).staticni.free@),
            final(self).sta() == model_vstavi(
                old(self).sta(),
                old(self).staticni.free@,
                Objekt { aabb, layer, mask, user_id: 0 },
            ).0,
            final(self).staticni.free@ == model_vstavi(
                old(self).sta(),
                old(self).staticni.free@,
                Objekt { aabb, layer, mask, user_id: 0 },
            ).1,
            final(self).dinamicni == old(self).dinamicni,
            final(self).veljaven_sta(r),
            final(self).sta()[r.idx()] == Some(Objekt { aabb, layer, mask, user_id: 0 }),
            forall|k: int|
                0 <= k < old(self).sta().len() && k != r.idx() ==> final(self).sta()[k] == old(
                    self,
                ).sta()[k],
            final(self).sta().len() <= old(self).sta().len() + 1,
    {
        let i = self.staticni.vstavi(Objekt { aabb, layer, mask, user_id: 0 });
        StaticenAABBRef { i }
    }

    /// Releases a dynamic collider. The handle is consumed: its slot is
    /// freed for reuse and no other code can still name it.
    pub fn izbrisi_dinamicen_obj(&mut self, aabb_ref: DinamicenAABBRef)
        requires
            old(self).wf(),
            old(self).veljaven_din(aabb_ref),
        ensures
            final(self).wf(),
            final(self).din() == old(self).din().update(aabb_ref.idx(), None),
            final(self).dinamicni.free@ == old(self).dinamicni.free@.push(
                aabb_ref.idx() as usize,
            ),
            final(self).staticni == old(self).staticni,
    {
        self.dinamicni.izbrisi(aabb_ref.i);
    }

    /// Releases a static collider.
    pub fn izbrisi_staticen_obj(&mut self, aabb_ref: StaticenAABBRef)
        requires
            old(self).wf(),
            old(self).veljaven_sta(aabb_ref),
        ensures
            final(self).wf(),
            final(self).sta() == old(self).sta().update(aabb_ref.idx(), None),
            final(self).staticni.free@ == old(self).staticni.free@.push(aabb_ref.idx() as usize),
            final(self).dinamicni == old(self).dinamicni,
    {
        self.staticni.izbrisi(aabb_ref.i);
    }

    /// Moves a dynamic body by a delta.
    pub fn premakni_obj(&mut self, aabb_ref: &DinamicenAABBRef, premik: (i64, i64))
        requires
            old(self).wf(),
            old(self).veljaven_din(*aabb_ref),
            -COORD_LIMIT <= (old(self).din()[aabb_ref.idx()]->0).aabb.x + premik.0 <= COORD_LIMIT,
            -COORD_LIMIT <= (old(self).din()[aabb_ref.idx()]->0).aabb.y + premik.1 <= COORD_LIMIT,
        ensures
            final(self).wf(),
            final(self).din() == old(self).din().update(
                aabb_ref.idx(),
                Some(
                    Objekt {
                        aabb: AABB {
                            x: ((old(self).din()[aabb_ref.idx()]->0).aabb.x + premik.0) as i64,
                            y: ((old(self).din()[aabb_ref.idx()]->0).aabb.y + premik.1) as i64,
                            ..(old(self).din()[aabb_ref.idx()]->0).aabb
                        },
                        ..old(self).din()[aabb_ref.idx()]->0
                    },
                ),
            ),
            final(self).dinamicni.free@ == old(self).dinamicni.free@,
            final(self).staticni == old(self).staticni,
    {
        let i = aabb_ref.i;
        let o = self.dinamicni.elements[i].as_ref().unwrap();
        let obj = Objekt {
            aabb: AABB { x: o.aabb.x + premik.0, y: o.aabb.y + premik.1, ..o.aabb },
            ..*o
        };
        self.dinamicni.elements.set(i, Some(obj));
        proof {
            assert forall|k: int|
                0 <= k < self.din().len() && (#[trigger] self.din()[k]) is None implies self
                .dinamicni
                .free@
                .contains(k as usize) by {
                assert(old(self).din()[k] is None);
            }
        }
    }

    /// Warps a dynamic body to an absolute position.
    pub fn premakni_obj_na(&mut self, aabb_ref: &DinamicenAABBRef, pozicija: (i64, i64))
        requires
            old(self).wf(),
            old(self).veljaven_din(*aabb_ref),
            -COORD_LIMIT <= pozicija.0 <= COORD_LIMIT,
            -COORD_LIMIT <= pozicija.1 <= COORD_LIMIT,
        ensures
            final(self).wf(),
            final(self).din() == old(self).din().update(
                aabb_ref.idx(),
                Some(
                    Objekt {
                        aabb: AABB {
                            x: pozicija.0,
                            y: pozicija.1,
                            ..(old(self).din()[aabb_ref.idx()]->0).aabb
                        },
                        ..old(self).din()[aabb_ref.idx()]->0
                    },
                ),
            ),
            final(self).dinamicni.free@ == old(self).dinamicni.free@,
            final(self).staticni == old(self).staticni,
    {
        let i = aabb_ref.i;
        let o = self.dinamicni.elements[i].as_ref().unwrap();
        let obj = Objekt { aabb: AABB { x: pozicija.0, y: pozicija.1, ..o.aabb }, ..*o };
        self.dinamicni.elements.set(i, Some(obj));
        proof {
            assert forall|k: int|
                0 <= k < self.din().len() && (#[trigger] self.din()[k]) is None implies self
                .dinamicni
                .free@
                .contains(k as usize) by {
                assert(old(self).din()[k] is None);
            }
        }
    }

    /// Current position of a dynamic body.
    pub fn pozicija_obj(&self, aabb_ref: &DinamicenAABBRef) -> (r: (i64, i64))
        requires
            self.wf(),
            self.veljaven_din(*aabb_ref),
        ensures
            r == (
                (self.din()[aabb_ref.idx()]->0).aabb.x,
                (self.din()[aabb_ref.idx()]->0).aabb.y,
            ),
    {
        let o = self.dinamicni.elements[aabb_ref.i].as_ref().unwrap();
        (o.aabb.x, o.aabb.y)
    }

    /// One resolution pass: every unordered dynamic-dynamic pair once (upper
    /// triangle, even split), then every static-dynamic pair (full correction
    /// to the dynamic body). The caller runs the pass twice per tick.
    pub fn resi_trke(&mut self)
        requires
            old(self).wf(),
        ensures
            final(self).wf(),
            final(self).din() == model_resi_trke(old(self).din(), old(self).sta()),
            final(self).dinamicni.free@ == old(self).dinamicni.free@,
            final(self).staticni == old(self).staticni,
    {
        let n = self.dinamicni.elements.len();
        let ghost zacetni = self.din();
        let mut i: usize = 0;
        while i < n
            invariant
                self.wf(),
                n == self.din().len(),
                i <= n,
                self.dinamicni.free@ == old(self).dinamicni.free@,
                self.staticni == old(self).staticni,
                model_din_vse(self.din(), i as int, n as int) == model_din_vse(
                    zacetni,
                    0,
                    n as int,
                ),
            decreases n - i,
        {
            let ghost vrstica_zacetek = self.din();
            let mut j: usize = i + 1;
            while j < n
                invariant
                    self.wf(),
                    n == self.din().len(),
                    i < n,
                    i < j <= n,
                    self.dinamicni.free@ == old(self).dinamicni.free@,
                    self.staticni == old(self).staticni,
                    model_din_vrstica(self.din(), i as int, j as int, n as int)
                        == model_din_vrstica(vrstica_zacetek, i as int, i + 1 as int, n as int),
                decreases n - j,
            {
                let oa = self.dinamicni.elements[i];
                let ob = self.dinamicni.elements[j];
                match (oa, ob) {
                    (Some(a), Some(b)) => {
                        let ghost pred = self.din();
                        let (na, nb) = resi_trk(a, b, false);
                        self.dinamicni.elements.set(i, Some(na));
                        self.dinamicni.elements.set(j, Some(nb));
                        proof {
                            assert(self.din() == model_resi_par(pred, i as int, j as int));
                            assert forall|k: int|
                                0 <= k < self.din().len() && (#[trigger] self.din()[k]) is None
                                    implies self.dinamicni.free@.contains(k as usize) by {
                                assert(pred[k] is None);
                            }
                        }
                    },
                    _ => {},
                }
                j = j + 1;
            }
            proof {
                assert(self.din() == model_din_vrstica(
                    vrstica_zacetek,
                    i as int,
                    i + 1 as int,
                    n as int,
                ));
                assert(model_din_vse(vrstica_zacetek, i as int, n as int) == model_din_vse(
                    self.din(),
                    i + 1 as int,
                    n as int,
                ));
            }
            i = i + 1;
        }
        let ghost po_dinamicnih = self.din();
        let m = self.staticni.elements.len();
        let mut si: usize = 0;
        while si < m
            invariant
                self.wf(),
                n == self.din().len(),
                m == self.sta().len(),
                si <= m,
                self.dinamicni.free@ == old(self).dinamicni.free@,
                self.staticni == old(self).staticni,
                model_sta_vse(self.din(), self.sta(), si as int, m as int) == model_sta_vse(
                    po_dinamicnih,
                    self.sta(),
                    0,
                    m as int,
                ),
            decreases m - si,
        {
            match self.staticni.elements[si] {
                Some(st_obj) => {
                    let ghost vrstica_zacetek = self.din();
                    let mut j: usize = 0;
                    while j < n
                        invariant
                            self.wf(),
                            n == self.din().len(),
                            si < m == self.sta().len(),
                            j <= n,
                            self.sta()[si as int] == Some(st_obj),
                            objekt_wf(st_obj),
                            self.dinamicni.free@ == old(self).dinamicni.free@,
                            self.staticni == old(self).staticni,
                            model_sta_vrstica(self.din(), st_obj, j as int, n as int)
                                == model_sta_vrstica(vrstica_zacetek, st_obj, 0, n as int),
                        decreases n - j,
                    {
                        match self.dinamicni.elements[j] {
                            Some(b) => {
                                let ghost pred = self.din();
                                let (_, nb) = resi_trk(st_obj, b, true);
                                self.dinamicni.elements.set(j, Some(nb));
                                proof {
                                    assert forall|k: int|
                                        0 <= k < self.din().len() && (#[trigger] self.din()[k])
                                            is None implies self.dinamicni.free@.contains(
                                            k as usize,
                                        ) by {
                                        assert(pred[k] is None);
                                    }
                                }
                            },
                            None => {},
                        }
                        j = j + 1;
                    }
                    proof {
                        assert(self.din() == model_sta_vrstica(
                            vrstica_zacetek,
                            st_obj,
                            0,
                            n as int,
                        ));
                        assert(model_sta_vse(vrstica_zacetek, self.sta(), si as int, m as int)
                            == model_sta_vse(self.din(), self.sta(), si + 1 as int, m as int));
                    }
                },
                None => {},
            }
            si = si + 1;
        }
        proof {
            assert(self.din() == model_sta_vse(po_dinamicnih, self.sta(), 0, m as int));
            assert(po_dinamicnih == model_din_vse(zacetni, 0, n as int));
        }
    }

    /// Returns `(owner_id, aabb)` for every live dynamic collider whose
    /// layer intersects `mask` and whose box overlaps `area`.
    pub fn area_query(&self, area: AABB, mask: u32) -> (r: Vec<(u32, AABB)>)
        requires
            self.wf(),
            area.wf(),
        ensures
            r@ == spec_area_query(self.din(), area, mask),
            forall|p: (u32, AABB)| #[trigger] r@.contains(p) <==> obstaja_zadetek(self.din(), area, mask, p),
    {
        let mut r: Vec<(u32, AABB)> = Vec::new();
        let n = self.dinamicni.elements.len();
        let mut i: usize = 0;
        while i < n
            invariant
                self.wf(),
                area.wf(),
                n == self.din().len(),
                i <= n,
                r@ == spec_area_query(self.din().take(i as int), area, mask),
            decreases n - i,
        {
            match &self.dinamicni.elements[i] {
                Some(o) => {
                    if mask & o.layer > 0 && o.aabb.overlaps(area) {
                        r.push((o.user_id, o.aabb));
                    }
                },
                None => {},
            }
            proof {
                assert(self.din().take(i + 1 as int).drop_last() =~= self.din().take(i as int));
                assert(self.din().take(i + 1 as int).last() == self.din()[i as int]);
            }
            i = i + 1;
        }
        proof {
            assert(self.din().take(n as int) =~= self.din());
            lemma_area_query_tocna(self.din(), area, mask);
        }
        r
    }
}

} // verus!
