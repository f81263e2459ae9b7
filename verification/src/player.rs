//! The locally-simulated player: movement integration from raw input,
//! sprite animation timing, and the sword-hitbox geometry that combat
//! arbitration shares with the server.
//!
//! Positions and distances are world milli-units, times are milliseconds,
//! facing directions are fixed-point vectors at [`crate::protocol::DIR_SCALE`].

use vstd::prelude::*;
use crate::collision::{
    AABB, COORD_LIMIT, DinamicenAABBRef, LAYER_MAP, LAYER_PLAYER, LAYER_SWORD, Physics, div_trunc,
    iabs, mul_i128, div_trunc_i128,
};
use vstd::arithmetic::div_mod::{lemma_div_is_ordered, lemma_div_multiples_vanish};

verus! {

/// Upper bound on the magnitude of a sword-hitbox coordinate, for any
/// attacker state representable on the wire; comfortably inside
/// [`COORD_LIMIT`].
pub const HITBOX_MEJA: i64 = 0xb_0000_0000_0000;

/// A sprite-sheet animation: elapsed time, time per frame, frame count,
/// the first frame's pixel rectangle, and whether it loops.
#[derive(Clone, Copy, Debug)]
pub struct Animacija {
    pub cas: i32,
    pub cas_na_frame: i32,
    pub stevilo_framov: u32,
    pub prvi_frame: (i32, i32, i32, i32),
    pub loop_anim: bool,
}

impl Animacija {
    /// Timing fields small enough that one tick can never overflow.
    pub open spec fn wf(&self) -> bool {
        &&& 0 < self.cas_na_frame <= 1000000
        &&& 1 <= self.stevilo_framov <= 1000
        &&& 0 <= self.cas <= self.cas_na_frame * self.stevilo_framov
        &&& -100000 <= self.prvi_frame.0 <= 100000
        &&& -100000 <= self.prvi_frame.1 <= 100000
        &&& 0 <= self.prvi_frame.2 <= 100000
        &&& 0 <= self.prvi_frame.3 <= 100000
    }

    pub fn new(
        prvi_frame: (i32, i32, i32, i32),
        stevilo_framov: u32,
        cas_na_frame: i32,
        loop_anim: bool,
    ) -> (r: Animacija)
        requires
            0 < cas_na_frame <= 1000000,
            1 <= stevilo_framov <= 1000,
            -100000 <= prvi_frame.0 <= 100000,
            -100000 <= prvi_frame.1 <= 100000,
            0 <= prvi_frame.2 <= 100000,
            0 <= prvi_frame.3 <= 100000,
        ensures
            r == (Animacija { cas: 0, cas_na_frame, stevilo_framov, prvi_frame, loop_anim }),
            r.wf(),
    {
        proof {
            assert(cas_na_frame * stevilo_framov >= 1 * 1) by (nonlinear_arith)
                requires
                    cas_na_frame >= 1,
                    stevilo_framov >= 1;
        }
        Animacija { cas: 0, cas_na_frame, stevilo_framov, prvi_frame, loop_anim }
    }

    /// The elapsed time after one tick: advanced by `delta`, wrapped into the
    /// full cycle for a looping animation, held at the end otherwise.
    pub open spec fn spec_posodobi(self, delta: i32) -> int {
        let cel = self.cas_na_frame * self.stevilo_framov;
        let nov = self.cas + delta;
        if self.loop_anim {
            nov % cel
        } else {
            if nov >= cel {
                cel as int
            } else {
                nov
            }
        }
    }

    pub fn posodobi(&mut self, delta: i32)
        requires
            old(self).wf(),
            0 <= delta <= 100000,
        ensures
            final(self).wf(),
            final(self).cas == old(self).spec_posodobi(delta),
            *final(self) == (Animacija { cas: final(self).cas, ..*old(self) }),
    {
        proof {
            assert(self.cas_na_frame * self.stevilo_framov <= 1000000 * 1000) by (nonlinear_arith)
                requires
                    0 < self.cas_na_frame <= 1000000,
                    1 <= self.stevilo_framov <= 1000;
            assert(self.cas_na_frame * self.stevilo_framov >= 1 * 1) by (nonlinear_arith)
                requires
                    cas_na_frame(*self) >= 1,
                    stevilo(*self) >= 1;
        }
        let cel = self.cas_na_frame * (self.stevilo_framov as i32);
        let nov = self.cas + delta;
        if self.loop_anim {
            proof {
                let ni: int = nov as int;
                let ci: int = cel as int;
                assert(0 <= ni % ci && ni % ci < ci) by (nonlinear_arith)
                    requires
                        ni >= 0,
                        ci > 0;
            }
            self.cas = nov % cel;
        } else {
            if nov >= cel {
                self.cas = cel;
            } else {
                self.cas = nov;
            }
        }
    }

    /// Pixel origin of the current frame in the sprite sheet: the first
    /// frame's origin advanced one frame-width per elapsed frame.
    pub open spec fn spec_izr_frame_xy(self) -> (int, int) {
        (self.prvi_frame.0 + (self.cas / self.cas_na_frame) * self.prvi_frame.2, self.prvi_frame.1 as int)
    }

    pub fn izr_frame_xy(&self) -> (r: (i32, i32))
        requires
            self.wf(),
        ensures
            (r.0 as int, r.1 as int) == self.spec_izr_frame_xy(),
    {
        proof {
            assert(0 <= self.cas / self.cas_na_frame <= 1000) by (nonlinear_arith)
                requires
                    0 < cas_na_frame(*self) <= 1000000,
                    1 <= stevilo(*self) <= 1000,
                    0 <= cas(*self) <= cas_na_frame(*self) * stevilo(*self);
            assert((self.cas / self.cas_na_frame) * self.prvi_frame.2 <= 1000 * 100000)
                by (nonlinear_arith)
                requires
                    0 <= self.cas as int / self.cas_na_frame as int <= 1000,
                    0 <= self.prvi_frame.2 <= 100000;
            assert((self.cas / self.cas_na_frame) * self.prvi_frame.2 >= 0) by (nonlinear_arith)
                requires
                    0 <= self.cas as int / self.cas_na_frame as int,
                    0 <= self.prvi_frame.2;
        }
        let kvocient = self.cas / self.cas_na_frame;
        (self.prvi_frame.0 + kvocient * self.prvi_frame.2, self.prvi_frame.1)
    }
}

/// Helper spec projections, so nonlinear side-queries can name the fields.
pub open spec fn cas_na_frame(a: Animacija) -> int {
    a.cas_na_frame as int
}

pub open spec fn stevilo(a: Animacija) -> int {
    a.stevilo_framov as int
}

pub open spec fn cas(a: Animacija) -> int {
    a.cas as int
}

/// The sword hitbox of an attacker: a 32x32-unit box centred ahead of the
/// player along its facing direction, pushed out by the swing progress.
/// Mirrors the attack easing of the renderer: full extension at the start
/// of the swing, decaying to nothing over 300 ms.
pub open spec fn spec_calc_sword_hitbox(
    player_pos: (i32, i32),
    attack_time: i32,
    razdalja_meca: i32,
    rotacija: (i32, i32),
) -> AABB {
    let cx = player_pos.0 + 8000;
    let cy = player_pos.1 + 12000;
    let stisk = if attack_time < 300 {
        300 - attack_time
    } else {
        0
    };
    let extra = 22000 * (stisk * stisk * stisk) / 27000000;
    let dist = razdalja_meca + extra;
    let offx = div_trunc(rotacija.0 * (dist * 2), 3072);
    let offy = div_trunc(rotacija.1 * (dist * 2), 3072);
    AABB { x: (cx + offx - 16000) as i64, y: (cy + offy - 16000) as i64, w: 32000, h: 32000 }
}

/// Truncated division by a positive divisor shrinks below any multiple
/// bound of the divisor.
proof fn lemma_div_trunc_meja(p: int, q: int, m: int)
    requires
        0 < q,
        0 <= m,
        iabs(p) <= q * m,
    ensures
        iabs(div_trunc(p, q)) <= m,
{
    if p >= 0 {
        lemma_div_is_ordered(p, q * m, q);
        lemma_div_multiples_vanish(m, q);
        assert(p / q <= (q * m) / q);
    } else {
        lemma_div_is_ordered(-p, q * m, q);
        lemma_div_multiples_vanish(m, q);
        assert((-p) / q <= (q * m) / q);
        assert((-p) / q >= 0) by (nonlinear_arith)
            requires
                -p >= 0,
                q > 0;
    }
}

/// The locally-simulated player: its advisory position and facing, combat
/// bookkeeping, and the handles of its body and sword colliders.
pub struct Player {
    pub position: (i32, i32),
    pub rotation: (i32, i32),
    pub ime: Vec<u8>,
    pub health: i32,
    pub velocity_y: i32,
    pub jumps_allowed: i32,
    pub attack_time: i32,
    pub aabb_ref: DinamicenAABBRef,
    pub sword_ref: DinamicenAABBRef,
    pub razdalja_meca: i32,
    pub animacije: Vec<Animacija>,
    pub trenutna_anim: usize,
}

impl Player {
    /// Well-formedness of the player's own fields.
    pub open spec fn wf_polja(&self) -> bool {
        &&& self.animacije@.len() == 2
        &&& self.trenutna_anim < 2
        &&& forall|i: int| 0 <= i < self.animacije@.len() ==> (#[trigger] self.animacije@[i]).wf()
        &&& 0 <= self.attack_time <= 1000000000
        &&& -700000 <= self.velocity_y <= 700000
        &&& 0 <= self.jumps_allowed <= 1
        &&& self.ime@.len() < 0x1_0000_0000
        &&& 0 <= self.health <= 100
    }

    /// Well-formedness against the simulation context: both collider
    /// handles are live and distinct.
    pub open spec fn wf(&self, fiz: Physics) -> bool {
        &&& self.wf_polja()
        &&& fiz.veljaven_din(self.aabb_ref)
        &&& fiz.veljaven_din(self.sword_ref)
        &&& self.aabb_ref.idx() != self.sword_ref.idx()
    }

    /// Spawns the player: registers its body on the player layer and its
    /// sword on the sword layer, both colliding with the map.
    pub fn new(ime: Vec<u8>, position: (i32, i32), fiz: &mut Physics) -> (r: Player)
        requires
            old(fiz).wf(),
            ime@.len() < 0x1_0000_0000,
        ensures
            final(fiz).wf(),
            r.wf(*final(fiz)),
            r.position == position,
            r.rotation == (0i32, 0i32),
            r.ime@ == ime@,
            r.health == 100,
            r.velocity_y == 0,
            r.jumps_allowed == 0,
            r.attack_time == 99000,
            r.razdalja_meca == 0,
            r.trenutna_anim == 0,
            final(fiz).din().len() == old(fiz).din().len() + if old(fiz).dinamicni.free@.len()
                >= 2 {
                0int
            } else if old(fiz).dinamicni.free@.len() == 1 {
                1int
            } else {
                2int
            },
            final(fiz).sta() == old(fiz).sta(),
            forall|k: int|
                0 <= k < old(fiz).din().len() && k != r.aabb_ref.idx() && k != r.sword_ref.idx()
                    ==> final(fiz).din()[k] == old(fiz).din()[k],
            final(fiz).din()[r.aabb_ref.idx()] == Some(
                crate::collision::Objekt {
                    aabb: AABB {
                        x: position.0 as i64,
                        y: position.1 as i64,
                        w: 16000,
                        h: 28000,
                    },
                    layer: LAYER_PLAYER,
                    mask: LAYER_PLAYER | LAYER_MAP,
                    user_id: 0,
                },
            ),
            final(fiz).din()[r.sword_ref.idx()] == Some(
                crate::collision::Objekt {
                    aabb: AABB {
                        x: position.0 as i64,
                        y: position.1 as i64,
                        w: 10000,
                        h: 10000,
                    },
                    layer: LAYER_SWORD,
                    mask: LAYER_SWORD | LAYER_MAP,
                    user_id: 10,
                },
            ),
    {
        proof {
            crate::collision::lemma_plasti_en_bit();
        }
        let telo = AABB::from_vec((position.0 as i64, position.1 as i64), (16000, 28000));
        let mec = AABB::from_vec((position.0 as i64, position.1 as i64), (10000, 10000));
        let aabb_ref = fiz.dodaj_dinamicen_obj(
            telo,
            LAYER_PLAYER,
            LAYER_PLAYER | LAYER_MAP,
            0,
        );
        let sword_ref = fiz.dodaj_dinamicen_obj(mec, LAYER_SWORD, LAYER_SWORD | LAYER_MAP, 10);
        proof {
            assert(aabb_ref.idx() != sword_ref.idx());
        }
        let mut animacije: Vec<Animacija> = Vec::new();
        animacije.push(Animacija::new((0, 32, 32, 32), 2, 350, true));
        animacije.push(Animacija::new((0, 64, 32, 32), 4, 100, true));
        Player {
            position,
            rotation: (0, 0),
            ime,
            health: 100,
            velocity_y: 0,
            jumps_allowed: 0,
            attack_time: 99000,
            aabb_ref,
            sword_ref,
            razdalja_meca: 0,
            animacije,
            trenutna_anim: 0,
        }
    }

    pub fn get_anim(&self) -> (r: &Animacija)
        requires
            self.trenutna_anim < self.animacije@.len(),
        ensures
            *r == self.animacije@[self.trenutna_anim as int],
    {
        &self.animacije[self.trenutna_anim]
    }

    /// Teleports the player: position and both colliders move to `position`.
    pub fn nastavi_pozicijo(&mut self, position: (i32, i32), fiz: &mut Physics)
        requires
            old(self).wf(*old(fiz)),
            old(fiz).wf(),
        ensures
            final(fiz).wf(),
            final(self).wf(*final(fiz)),
            *final(self) == (Player { position, ..*old(self) }),
            final(fiz).din() == old(fiz).din().update(
                old(self).aabb_ref.idx(),
                Some(
                    crate::collision::Objekt {
                        aabb: AABB {
                            x: position.0 as i64,
                            y: position.1 as i64,
                            ..(old(fiz).din()[old(self).aabb_ref.idx()]->0).aabb
                        },
                        ..old(fiz).din()[old(self).aabb_ref.idx()]->0
                    },
                ),
            ).update(
                old(self).sword_ref.idx(),
                Some(
                    crate::collision::Objekt {
                        aabb: AABB {
                            x: position.0 as i64,
                            y: position.1 as i64,
                            ..(old(fiz).din()[old(self).sword_ref.idx()]->0).aabb
                        },
                        ..old(fiz).din()[old(self).sword_ref.idx()]->0
                    },
                ),
            ),
            final(fiz).dinamicni.free@ == old(fiz).dinamicni.free@,
            final(fiz).sta() == old(fiz).sta(),
    {
        self.position = position;
        fiz.premakni_obj_na(&self.aabb_ref, (position.0 as i64, position.1 as i64));
        fiz.premakni_obj_na(&self.sword_ref, (position.0 as i64, position.1 as i64));
    }
}

/// Raw input of one frame, as plain values: horizontal keys, a jump press,
/// an attack press, and the mouse position in world milli-units.
#[derive(Clone, Copy, Debug)]
pub struct VhodIgralca {
    pub levo: bool,
    pub desno: bool,
    pub skok: bool,
    pub napad: bool,
    pub miska: (i32, i32),
}

/// Integer square root: the largest `r` with `r * r <= n`.
pub fn isqrt_i128(n: i128) -> (r: i128)
    requires
        0 <= n < 0x1_0000_0000_0000_0000_0000_0000,
    ensures
        0 <= r,
        r * r <= n,
        n < (r + 1) * (r + 1),
{
    let mut lo: i128 = 0;
    let mut hi: i128 = 0x1_0000_0000_0000;
    proof {
        assert((0x1_0000_0000_0000i128 as int) * (0x1_0000_0000_0000i128 as int)
            == 0x1_0000_0000_0000_0000_0000_0000);
    }
    while lo + 1 < hi
        invariant
            0 <= lo < hi <= 0x1_0000_0000_0000,
            lo * lo <= n,
            n < hi * hi,
        decreases hi - lo,
    {
        let mid = lo + (hi - lo) / 2;
        let sq = mul_i128(mid, mid);
        if sq <= n {
            lo = mid;
        } else {
            hi = mid;
        }
    }
    lo
}

/// The rounded square root, as the unique value with the bracketing
/// property.
pub open spec fn spec_koren(kv: int) -> int {
    choose|r: int| 0 <= r && #[trigger] (r * r) <= kv && kv < (r + 1) * (r + 1)
}

/// Any two integers with the bracketing property of `kv` are equal, so the
/// chosen root is the computed one.
proof fn lemma_koren_enolicen(kv: int, r: int)
    requires
        kv >= 0,
        0 <= r,
        r * r <= kv,
        kv < (r + 1) * (r + 1),
    ensures
        spec_koren(kv) == r,
{
    let c = spec_koren(kv);
    assert(0 <= c && c * c <= kv && kv < (c + 1) * (c + 1)) by {
        assert(0 <= r && r * r <= kv && kv < (r + 1) * (r + 1));
    }
    assert(c == r) by (nonlinear_arith)
        requires
            0 <= c,
            0 <= r,
            c * c <= kv,
            kv < (c + 1) * (c + 1),
            r * r <= kv,
            kv < (r + 1) * (r + 1);
}

/// Length of a vector in milli-units, rounded down.
pub open spec fn spec_dolzina(x: int, y: int) -> int {
    spec_koren(x * x + y * y)
}

/// Executable length, pinned to [`spec_dolzina`].
pub fn dolzina(x: i64, y: i64) -> (r: i64)
    requires
        -100_000_000_000 <= x <= 100_000_000_000,
        -100_000_000_000 <= y <= 100_000_000_000,
    ensures
        r == spec_dolzina(x as int, y as int),
        0 <= r <= 200_000_000_000,
{
    let kx = mul_i128(x as i128, x as i128);
    let ky = mul_i128(y as i128, y as i128);
    proof {
        assert(0 <= kx as int <= 100_000_000_000 * 100_000_000_000 && 0 <= ky as int
            <= 100_000_000_000 * 100_000_000_000) by (nonlinear_arith)
            requires
                kx as int == x as int * x as int,
                ky as int == y as int * y as int,
                -100_000_000_000 <= x as int <= 100_000_000_000,
                -100_000_000_000 <= y as int <= 100_000_000_000;
    }
    let koren = isqrt_i128(kx + ky);
    proof {
        let kv = x as int * x as int + y as int * y as int;
        lemma_koren_enolicen(kv, koren as int);
        assert(kv <= 2 * (100_000_000_000 * 100_000_000_000)) by (nonlinear_arith)
            requires
                -100_000_000_000 <= x as int <= 100_000_000_000,
                -100_000_000_000 <= y as int <= 100_000_000_000,
                kv == x as int * x as int + y as int * y as int;
        assert(koren as int <= 200_000_000_000) by (nonlinear_arith)
            requires
                (koren as int) * (koren as int) <= kv,
                kv <= 2 * (100_000_000_000 * 100_000_000_000),
                koren as int >= 0;
    }
    koren as i64
}

pub const PLAYER_SPEED: i32 = 75;

pub const JUMP_VEL: i32 = 500000;

pub const MAX_VEL: i32 = 600000;

pub const GRAVITY: i32 = 1500;

/// Horizontal displacement of one frame from the held keys, in milli-units.
pub open spec fn spec_premik_x(vhod: VhodIgralca, delta: i32) -> int {
    (if vhod.levo {
        -(PLAYER_SPEED * delta) as int
    } else {
        0int
    }) + (if vhod.desno {
        (PLAYER_SPEED * delta) as int
    } else {
        0int
    })
}

/// A vector shortened onto the disc of radius `m` (componentwise truncated
/// division), left alone when already inside.
pub open spec fn spec_omeji_dolzino(x: int, y: int, m: int) -> (int, int) {
    let len = spec_dolzina(x, y);
    if len > m {
        (div_trunc(x * m, len), div_trunc(y * m, len))
    } else {
        (x, y)
    }
}

impl Player {
    /// One frame of local simulation: reads the body's resolved position
    /// back from the collision arena, integrates gravity and jumps, moves
    /// the body by the held keys, chases the sword toward the mouse,
    /// refreshes the facing direction and sword reach from where the sword
    /// actually is, advances the attack timer and the animation. Does
    /// nothing while dead. Positions pushed absurdly far by the resolver
    /// saturate at the representable range.
    #[verifier::rlimit(100)]
    pub fn posodobi(&mut self, delta: i32, vhod: VhodIgralca, fiz: &mut Physics)
        requires
            old(self).wf(*old(fiz)),
            old(fiz).wf(),
            0 < delta <= 100000,
            -1000000000 <= vhod.miska.0 <= 1000000000,
            -1000000000 <= vhod.miska.1 <= 1000000000,
        ensures
            final(self).wf(*final(fiz)),
            final(fiz).wf(),
            final(fiz).sta() == old(fiz).sta(),
            final(fiz).dinamicni.free@ == old(fiz).dinamicni.free@,
            final(fiz).din().len() == old(fiz).din().len(),
            old(self).health <= 0 ==> *final(self) == *old(self) && *final(fiz) == *old(fiz),
            old(self).health > 0 ==> ({
                let telo = (old(fiz).din()[old(self).aabb_ref.idx()]->0).aabb;
                let grounded = telo.y == old(self).position.1 as int;
                let vy0: int = if grounded {
                    0int
                } else {
                    old(self).velocity_y as int
                };
                let jumps0: int = if grounded {
                    1int
                } else {
                    old(self).jumps_allowed as int
                };
                let skoci = (jumps0 > 0 || grounded) && vhod.skok;
                let vy1: int = if skoci {
                    -JUMP_VEL as int
                } else {
                    vy0
                };
                let jumps1: int = if skoci && !grounded {
                    jumps0 - 1
                } else {
                    jumps0
                };
                let vy2 = vy1 + GRAVITY * delta;
                let vy3: int = if vy2 > MAX_VEL as int {
                    MAX_VEL as int
                } else if vy2 < -MAX_VEL as int {
                    -MAX_VEL as int
                } else {
                    vy2
                };
                let px = spec_premik_x(vhod, delta);
                let py = div_trunc(vy3 * delta, 1000);
                let cilj_telesa = (
                    crate::collision::iclamp(telo.x + px, -COORD_LIMIT as int, COORD_LIMIT as int),
                    crate::collision::iclamp(telo.y + py, -COORD_LIMIT as int, COORD_LIMIT as int),
                );
                let poz = (crate::network::spec_v_i32(telo.x as int), crate::network::spec_v_i32(
                    telo.y as int,
                ));
                let smer_meca = (
                    vhod.miska.0 - (poz.0 + 8000),
                    vhod.miska.1 - (poz.1 + 12000),
                );
                let omejena = spec_omeji_dolzino(smer_meca.0 as int, smer_meca.1 as int, 26000);
                let zeljena = (omejena.0 + poz.0 + 3000, omejena.1 + poz.1 + 7000);
                let mec = (old(fiz).din()[old(self).sword_ref.idx()]->0).aabb;
                let premik_meca = (
                    div_trunc((zeljena.0 - mec.x) * delta, 100),
                    div_trunc((zeljena.1 - mec.y) * delta, 100),
                );
                let cilj_meca = (
                    crate::collision::iclamp(
                        mec.x + premik_meca.0,
                        -COORD_LIMIT as int,
                        COORD_LIMIT as int,
                    ),
                    crate::collision::iclamp(
                        mec.y + premik_meca.1,
                        -COORD_LIMIT as int,
                        COORD_LIMIT as int,
                    ),
                );
                let dsx = crate::collision::iclamp(
                    (mec.x + 5000) - (poz.0 + 8000),
                    -100000000000,
                    100000000000,
                );
                let dsy = crate::collision::iclamp(
                    (mec.y + 5000) - (poz.1 + 12000),
                    -100000000000,
                    100000000000,
                );
                let len2 = spec_dolzina(dsx, dsy);
                let rot: (i32, i32) = if len2 > 0 {
                    (
                        div_trunc(dsx * 1024, len2) as i32,
                        div_trunc(dsy * 1024, len2) as i32,
                    )
                } else {
                    old(self).rotation
                };
                let nov_attack: int = if vhod.napad {
                    0int
                } else if old(self).attack_time + delta > 1000000000 {
                    1000000000int
                } else {
                    old(self).attack_time + delta
                };
                &&& final(self).position == poz
                &&& final(self).velocity_y == vy3
                &&& final(self).jumps_allowed == jumps1
                &&& final(self).rotation == rot
                &&& final(self).razdalja_meca == crate::network::spec_v_i32(len2 - 3000)
                &&& final(self).attack_time == nov_attack
                &&& final(self).trenutna_anim == (if px != 0 {
                    1int
                } else {
                    0int
                })
                &&& final(self).animacije@ == old(self).animacije@.update(
                    old(self).trenutna_anim as int,
                    Animacija {
                        cas: old(self).animacije@[old(self).trenutna_anim as int].spec_posodobi(
                            delta,
                        ) as i32,
                        ..old(self).animacije@[old(self).trenutna_anim as int]
                    },
                )
                &&& final(self).health == old(self).health
                &&& final(self).ime == old(self).ime
                &&& final(self).aabb_ref == old(self).aabb_ref
                &&& final(self).sword_ref == old(self).sword_ref
                &&& final(fiz).din() == old(fiz).din().update(
                    old(self).aabb_ref.idx(),
                    Some(
                        crate::collision::Objekt {
                            aabb: AABB {
                                x: cilj_telesa.0 as i64,
                                y: cilj_telesa.1 as i64,
                                ..telo
                            },
                            ..old(fiz).din()[old(self).aabb_ref.idx()]->0
                        },
                    ),
                ).update(
                    old(self).sword_ref.idx(),
                    Some(
                        crate::collision::Objekt {
                            aabb: AABB { x: cilj_meca.0 as i64, y: cilj_meca.1 as i64, ..mec },
                            ..old(fiz).din()[old(self).sword_ref.idx()]->0
                        },
                    ),
                )
            }),
    {
        if self.health <= 0 {
            return ;
        }
        let telo_poz = fiz.pozicija_obj(&self.aabb_ref);
        let grounded = telo_poz.1 == self.position.1 as i64;
        if grounded {
            self.velocity_y = 0;
            self.jumps_allowed = 1;
        }
        self.position = (v_i32(telo_poz.0), v_i32(telo_poz.1));
        let mut premik_x: i64 = 0;
        if vhod.levo {
            premik_x = premik_x - (PLAYER_SPEED * delta) as i64;
        }
        if vhod.desno {
            premik_x = premik_x + (PLAYER_SPEED * delta) as i64;
        }
        if (self.jumps_allowed > 0 || grounded) && vhod.skok {
            self.velocity_y = -JUMP_VEL;
            if !grounded {
                self.jumps_allowed = self.jumps_allowed - 1;
            }
        }
        let vy2 = self.velocity_y + GRAVITY * delta;
        self.velocity_y = if vy2 > MAX_VEL {
            MAX_VEL
        } else if vy2 < -MAX_VEL {
            -MAX_VEL
        } else {
            vy2
        };
        let premik_y = div_trunc_i128(
            mul_i128(self.velocity_y as i128, delta as i128),
            1000,
        );
        let ct_x = clamp_koordinato(telo_poz.0 as i128 + premik_x as i128);
        let ct_y = clamp_koordinato(telo_poz.1 as i128 + premik_y);
        fiz.premakni_obj_na(&self.aabb_ref, (ct_x, ct_y));
        let smer_x = vhod.miska.0 as i64 - (self.position.0 as i64 + 8000);
        let smer_y = vhod.miska.1 as i64 - (self.position.1 as i64 + 12000);
        let omejena = omeji_dolzino(smer_x, smer_y, 26000);
        let zeljena_x = omejena.0 + self.position.0 as i64 + 3000;
        let zeljena_y = omejena.1 + self.position.1 as i64 + 7000;
        let mec_poz = fiz.pozicija_obj(&self.sword_ref);
        let pm_x = div_trunc_i128(
            mul_i128((zeljena_x as i128) - (mec_poz.0 as i128), delta as i128),
            100,
        );
        let pm_y = div_trunc_i128(
            mul_i128((zeljena_y as i128) - (mec_poz.1 as i128), delta as i128),
            100,
        );
        let cm_x = clamp_koordinato(mec_poz.0 as i128 + pm_x);
        let cm_y = clamp_koordinato(mec_poz.1 as i128 + pm_y);
        proof {
            assert(fiz.veljaven_din(self.sword_ref));
        }
        fiz.premakni_obj_na(&self.sword_ref, (cm_x, cm_y));
        let dsx = clamp_razdaljo((mec_poz.0 as i128 + 5000) - (self.position.0 as i128 + 8000));
        let dsy = clamp_razdaljo((mec_poz.1 as i128 + 5000) - (self.position.1 as i128 + 12000));
        let len2 = dolzina(dsx, dsy);
        if len2 > 0 {
            self.rotation = (
                (div_trunc_i128(mul_i128(dsx as i128, 1024), len2 as i128)) as i32,
                (div_trunc_i128(mul_i128(dsy as i128, 1024), len2 as i128)) as i32,
            );
            proof {
                lemma_div_trunc_meja(dsx as int * 1024, len2 as int, (1024 * 100000000000) as int);
                lemma_div_trunc_meja(dsy as int * 1024, len2 as int, (1024 * 100000000000) as int);
            }
        }
        self.razdalja_meca = v_i32(len2 - 3000);
        if vhod.napad {
            self.attack_time = 0;
        } else {
            if self.attack_time + delta > 1000000000 {
                self.attack_time = 1000000000;
            } else {
                self.attack_time = self.attack_time + delta;
            }
        }
        let kateri = self.trenutna_anim;
        let a = &mut self.animacije[kateri];
        a.posodobi(delta);
        if premik_x != 0 {
            self.trenutna_anim = 1;
        } else {
            self.trenutna_anim = 0;
        }
    }
}

/// A coordinate squeezed into the collision arena's representable range.
fn clamp_koordinato(v: i128) -> (r: i64)
    ensures
        r as int == crate::collision::iclamp(v as int, -COORD_LIMIT as int, COORD_LIMIT as int),
{
    if v < -COORD_LIMIT as i128 {
        -COORD_LIMIT
    } else if v > COORD_LIMIT as i128 {
        COORD_LIMIT
    } else {
        v as i64
    }
}

/// A sword-to-player offset squeezed into the range the length fits in.
fn clamp_razdaljo(v: i128) -> (r: i64)
    ensures
        r as int == crate::collision::iclamp(v as int, -100000000000, 100000000000),
{
    if v < -100000000000i128 {
        -100000000000
    } else if v > 100000000000i128 {
        100000000000
    } else {
        v as i64
    }
}

/// A wire-range clamp shared with the server's particle coordinates.
fn v_i32(v: i64) -> (r: i32)
    ensures
        r == crate::network::spec_v_i32(v as int),
{
    if v < i32::MIN as i64 {
        i32::MIN
    } else if v > i32::MAX as i64 {
        i32::MAX
    } else {
        v as i32
    }
}

/// Executable mirror of [`spec_omeji_dolzino`].
fn omeji_dolzino(x: i64, y: i64, m: i64) -> (r: (i64, i64))
    requires
        -100_000_000_000 <= x <= 100_000_000_000,
        -100_000_000_000 <= y <= 100_000_000_000,
        0 < m <= 1000000,
    ensures
        (r.0 as int, r.1 as int) == spec_omeji_dolzino(x as int, y as int, m as int),
        -100_000_000_000 <= r.0 <= 100_000_000_000,
        -100_000_000_000 <= r.1 <= 100_000_000_000,
{
    let len = dolzina(x, y);
    if len > m {
        proof {
            assert(iabs(x as int * m as int) <= len as int * 100_000_000_000)
                by (nonlinear_arith)
                requires
                    iabs(x as int) <= 100_000_000_000,
                    0 < m as int <= 1000000,
                    len as int > m as int;
            assert(iabs(y as int * m as int) <= len as int * 100_000_000_000)
                by (nonlinear_arith)
                requires
                    iabs(y as int) <= 100_000_000_000,
                    0 < m as int <= 1000000,
                    len as int > m as int;
            lemma_div_trunc_meja(x as int * m as int, len as int, 100_000_000_000int);
            lemma_div_trunc_meja(y as int * m as int, len as int, 100_000_000_000int);
        }
        let rx = div_trunc_i128(mul_i128(x as i128, m as i128), len as i128);
        let ry = div_trunc_i128(mul_i128(y as i128, m as i128), len as i128);
        (rx as i64, ry as i64)
    } else {
        (x, y)
    }
}

/// Region the server queries for melee targets when this attacker swings.
pub fn calc_sword_hitbox(
    player_pos: (i32, i32),
    attack_time: i32,
    razdalja_meca: i32,
    rotacija: (i32, i32),
) -> (r: AABB)
    requires
        attack_time >= 0,
    ensures
        r == spec_calc_sword_hitbox(player_pos, attack_time, razdalja_meca, rotacija),
        r.wf(),
        -HITBOX_MEJA <= r.x <= HITBOX_MEJA,
        -HITBOX_MEJA <= r.y <= HITBOX_MEJA,
{
    let cx = player_pos.0 as i64 + 8000;
    let cy = player_pos.1 as i64 + 12000;
    let stisk: i64 = if attack_time < 300 {
        (300 - attack_time) as i64
    } else {
        0
    };
    proof {
        assert(stisk * stisk <= 90000 && 0 <= stisk * stisk && stisk * stisk * stisk
            <= 27000000 && 0 <= stisk * stisk * stisk) by (nonlinear_arith)
            requires
                0 <= stisk <= 300;
    }
    let extra = 22000 * (stisk * stisk * stisk) / 27000000;
    let dist = razdalja_meca as i64 + extra;
    let dvojni = dist * 2;
    let px = mul_i128(rotacija.0 as i128, dvojni as i128);
    let py = mul_i128(rotacija.1 as i128, dvojni as i128);
    proof {
        assert(iabs(px as int) <= 3072 * 3010000000000000 && iabs(py as int) <= 3072
            * 3010000000000000) by (nonlinear_arith)
            requires
                px as int == rotacija.0 as int * (dvojni as int),
                py as int == rotacija.1 as int * (dvojni as int),
                iabs(rotacija.0 as int) <= 0x8000_0000,
                iabs(rotacija.1 as int) <= 0x8000_0000,
                iabs(dvojni as int) <= 0x1_0010_0000;
        lemma_div_trunc_meja(px as int, 3072, 3010000000000000);
        lemma_div_trunc_meja(py as int, 3072, 3010000000000000);
    }
    let offx = div_trunc_i128(px, 3072);
    let offy = div_trunc_i128(py, 3072);
    let x = cx as i128 + offx - 16000;
    let y = cy as i128 + offy - 16000;
    AABB { x: x as i64, y: y as i64, w: 32000, h: 32000 }
}

} // verus!
