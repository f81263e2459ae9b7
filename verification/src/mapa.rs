//! Building the static world geometry from the level's tile grid: each
//! maximal horizontal run of solid tiles becomes one static collider on the
//! map layer, scanned bottom row first, as the level loader always has.

use vstd::prelude::*;
use crate::collision::{
    AABB, LAYER_MAP, LAYER_PLAYER, LAYER_SWORD, Objekt, Physics, StaticenAABBRef,
};

verus! {

/// Side of one tile, in milli-units.
pub const TILE: i64 = 16000;

/// Whether the tile at `(x, y)` of a row-major grid is solid.
pub open spec fn celica(mreza: Seq<bool>, sirina: int, x: int, y: int) -> bool {
    mreza[y * sirina + x]
}

/// Length of the solid run starting at `(x, y)`.
pub open spec fn dolzina_runa(mreza: Seq<bool>, sirina: int, x: int, y: int) -> int
    decreases sirina - x,
{
    if x >= sirina || !celica(mreza, sirina, x, y) {
        0
    } else {
        1 + dolzina_runa(mreza, sirina, x + 1, y)
    }
}

/// The maximal solid runs of row `y` that start at column `x` or later, in
/// scan order, as `(column, row, length)`.
pub open spec fn runi_vrstice(mreza: Seq<bool>, sirina: int, y: int, x: int) -> Seq<
    (int, int, int),
>
    decreases sirina - x,
{
    if x >= sirina {
        Seq::empty()
    } else if celica(mreza, sirina, x, y) && (x == 0 || !celica(mreza, sirina, x - 1, y)) {
        seq![(x, y, dolzina_runa(mreza, sirina, x, y))] + runi_vrstice(mreza, sirina, y, x + 1)
    } else {
        runi_vrstice(mreza, sirina, y, x + 1)
    }
}

/// All maximal solid runs of rows `y` down to `0`, bottom rows first.
pub open spec fn vsi_runi(mreza: Seq<bool>, sirina: int, y: int) -> Seq<(int, int, int)>
    decreases y + 1,
{
    if y < 0 {
        Seq::empty()
    } else {
        runi_vrstice(mreza, sirina, y, 0) + vsi_runi(mreza, sirina, y - 1)
    }
}

/// The collider of one run, placed at the world offset.
pub open spec fn skatla_runa(run: (int, int, int), offset: (i64, i64)) -> AABB {
    AABB {
        x: (offset.0 + TILE * run.0) as i64,
        y: (offset.1 + TILE * run.1) as i64,
        w: (TILE * run.2) as i64,
        h: TILE,
    }
}

/// Columns `a <= t < b` all continue a run (solid, with a solid left
/// neighbour), so no run starts there.
proof fn lemma_runi_preskok(mreza: Seq<bool>, sirina: int, y: int, a: int, b: int)
    requires
        0 < a <= b <= sirina,
        forall|t: int|
            a <= t < b ==> #[trigger] celica(mreza, sirina, t, y) && celica(
                mreza,
                sirina,
                t - 1,
                y,
            ),
    ensures
        runi_vrstice(mreza, sirina, y, a) == runi_vrstice(mreza, sirina, y, b),
    decreases b - a,
{
    if a < b {
        lemma_runi_preskok(mreza, sirina, y, a + 1, b);
    }
}

/// A stretch of solid columns bounded by grid edge or air on both sides has
/// exactly that run length.
proof fn lemma_dolzina_runa_tocna(mreza: Seq<bool>, sirina: int, y: int, x: int, konec: int)
    requires
        0 <= x <= konec <= sirina,
        forall|t: int| x <= t < konec ==> #[trigger] celica(mreza, sirina, t, y),
        konec == sirina || !celica(mreza, sirina, konec, y),
    ensures
        dolzina_runa(mreza, sirina, x, y) == konec - x,
    decreases konec - x,
{
    if x < konec {
        lemma_dolzina_runa_tocna(mreza, sirina, y, x + 1, konec);
    }
}

/// Builds the static map colliders from the tile grid: one collider on the
/// map layer per maximal horizontal run of solid tiles, rows scanned from
/// the bottom up, columns left to right. Returns the owning handles, in
/// that order.
#[verifier::rlimit(100)]
pub fn generate_map_colliders(
    fiz: &mut Physics,
    mreza: &Vec<bool>,
    sirina: usize,
    visina: usize,
    offset: (i64, i64),
) -> (r: Vec<StaticenAABBRef>)
    requires
        old(fiz).wf(),
        0 < sirina <= 32768,
        0 < visina <= 32768,
        mreza@.len() == sirina * visina,
        -1000000000000 <= offset.0 <= 1000000000000,
        -1000000000000 <= offset.1 <= 1000000000000,
    ensures
        final(fiz).wf(),
        final(fiz).dinamicni == old(fiz).dinamicni,
        ({
            let runi = vsi_runi(mreza@, sirina as int, visina - 1);
            &&& r@.len() == runi.len()
            &&& forall|k: int|
                0 <= k < runi.len() ==> final(fiz).veljaven_sta(#[trigger] r@[k]) && final(fiz).sta()[r@[k].idx()] == Some(
                    Objekt {
                        aabb: skatla_runa(runi[k], offset),
                        layer: LAYER_MAP,
                        mask: LAYER_MAP | LAYER_PLAYER | LAYER_SWORD,
                        user_id: 0,
                    },
                )
            &&& forall|k: int, l: int| 0 <= k < l < runi.len() ==> r@[k].idx() != r@[l].idx()
        }),
{
    let mut r: Vec<StaticenAABBRef> = Vec::new();
    let ghost m = mreza@;
    let ghost s = sirina as int;
    let mut yy: usize = visina;
    proof {
        crate::collision::lemma_plasti_en_bit();
        assert(sirina * visina <= 1073741824) by (nonlinear_arith)
            requires
                0 < sirina <= 32768,
                0 < visina <= 32768;
        assert(vsi_runi(m, s, visina - 1 - (visina - yy)) =~= vsi_runi(m, s, visina - 1));
    }
    while yy > 0
        invariant
            m == mreza@,
            s == sirina as int,
            0 < sirina <= 32768,
            0 < visina <= 32768,
            m.len() == sirina * visina,
            -1000000000000 <= offset.0 <= 1000000000000,
            -1000000000000 <= offset.1 <= 1000000000000,
            yy <= visina,
            sirina * visina <= 1073741824,
            fiz.wf(),
            fiz.dinamicni == old(fiz).dinamicni,
            ({
                let celota = vsi_runi(m, s, visina - 1);
                let ostanek = vsi_runi(m, s, yy - 1);
                &&& celota.len() >= ostanek.len()
                &&& celota.skip(r@.len() as int) == ostanek
                &&& r@.len() + ostanek.len() == celota.len()
                &&& forall|k: int|
                    0 <= k < r@.len() ==> fiz.veljaven_sta(#[trigger] r@[k]) && fiz.sta()[
                        r@[k].idx()
                    ] == Some(
                        Objekt {
                            aabb: skatla_runa(celota[k], offset),
                            layer: LAYER_MAP,
                            mask: LAYER_MAP | LAYER_PLAYER | LAYER_SWORD,
                            user_id: 0,
                        },
                    )
                &&& forall|k: int, l: int| 0 <= k < l < r@.len() ==> r@[k].idx() != r@[l].idx()
            }),
        decreases yy,
    {
        let y = yy - 1;
        let mut x: usize = 0;
        while x < sirina
            invariant
                m == mreza@,
                s == sirina as int,
                0 < sirina <= 32768,
                0 < visina <= 32768,
                m.len() == sirina * visina,
                -1000000000000 <= offset.0 <= 1000000000000,
                -1000000000000 <= offset.1 <= 1000000000000,
                y < visina,
                x <= sirina,
                sirina * visina <= 1073741824,
                fiz.wf(),
                fiz.dinamicni == old(fiz).dinamicni,
                ({
                    let celota = vsi_runi(m, s, visina - 1);
                    let ostanek_vrstice = runi_vrstice(m, s, y as int, x as int);
                    let ostanek = ostanek_vrstice + vsi_runi(m, s, y - 1);
                    &&& celota.skip(r@.len() as int) == ostanek
                    &&& r@.len() + ostanek.len() == celota.len()
                    &&& forall|k: int|
                        0 <= k < r@.len() ==> fiz.veljaven_sta(#[trigger] r@[k]) && fiz.sta()[
                            r@[k].idx()
                        ] == Some(
                            Objekt {
                                aabb: skatla_runa(celota[k], offset),
                                layer: LAYER_MAP,
                                mask: LAYER_MAP | LAYER_PLAYER | LAYER_SWORD,
                                user_id: 0,
                            },
                        )
                    &&& forall|k: int, l: int|
                        0 <= k < l < r@.len() ==> r@[k].idx() != r@[l].idx()
                }),
            decreases sirina - x,
        {
            proof {
                assert((y + 1) * sirina <= sirina * visina) by (nonlinear_arith)
                    requires
                        y < visina,
                        0 < sirina;
                assert(y * sirina + x < (y + 1) * sirina) by (nonlinear_arith)
                    requires
                        x < sirina,
                        0 <= y;
            }
            let poln = mreza[y * sirina + x];
            let zacetek = poln && (x == 0 || !mreza[y * sirina + (x - 1)]);
            if zacetek {
                let mut konec = x + 1;
                let mut tece = true;
                while tece && konec < sirina
                    invariant
                        m == mreza@,
                        s == sirina as int,
                        0 < sirina,
                        y < visina,
                        m.len() == sirina * visina,
                        x < konec <= sirina,
                        sirina * visina <= 1073741824,
                        (y + 1) * sirina <= sirina * visina,
                        forall|t: int| x <= t < konec ==> #[trigger] celica(m, s, t, y as int),
                        !tece ==> konec < sirina && !celica(m, s, konec as int, y as int),
                    decreases sirina - konec + if tece {
                        1int
                    } else {
                        0int
                    },
                {
                    proof {
                        assert(y * sirina + konec < (y + 1) * sirina) by (nonlinear_arith)
                            requires
                                konec < sirina,
                                0 <= y;
                    }
                    if mreza[y * sirina + konec] {
                        konec = konec + 1;
                    } else {
                        tece = false;
                    }
                }
                proof {
                    lemma_dolzina_runa_tocna(m, s, y as int, x as int, konec as int);
                    crate::collision::lemma_plasti_en_bit();
                }
                let dolzina = konec - x;
                let skatla = AABB {
                    x: offset.0 + TILE * (x as i64),
                    y: offset.1 + TILE * (y as i64),
                    w: TILE * (dolzina as i64),
                    h: TILE,
                };
                let ghost fiz_pred = *fiz;
                let ghost stara = r@;
                let rocaj = fiz.dodaj_staticen_obj(
                    skatla,
                    LAYER_MAP,
                    LAYER_MAP | LAYER_PLAYER | LAYER_SWORD,
                );
                proof {
                    if fiz_pred.staticni.free@.len() > 0 {
                        assert(fiz_pred.sta()[fiz_pred.staticni.free@[fiz_pred.staticni.free@.len()
                            - 1] as int] is None);
                    }
                    assert forall|k: int|
                        0 <= k < stara.len() implies fiz.veljaven_sta(#[trigger] stara[k])
                        && fiz.sta()[stara[k].idx()] == fiz_pred.sta()[stara[k].idx()]
                        && stara[k].idx() != rocaj.idx() by {
                        assert(fiz_pred.veljaven_sta(stara[k]));
                    }
                }
                r.push(rocaj);
                proof {
                    let celota = vsi_runi(m, s, visina - 1);
                    let run = (x as int, y as int, dolzina as int);
                    if (konec as int) > x + 1 {
                        lemma_runi_preskok(m, s, y as int, x + 1 as int, konec as int);
                    }
                    assert(runi_vrstice(m, s, y as int, x as int) == seq![run] + runi_vrstice(
                        m,
                        s,
                        y as int,
                        konec as int,
                    ));
                    let ostanek_prej = runi_vrstice(m, s, y as int, x as int) + vsi_runi(
                        m,
                        s,
                        y - 1,
                    );
                    assert(celota.skip(stara.len() as int) == ostanek_prej);
                    assert(celota[stara.len() as int] == ostanek_prej[0]);
                    assert(ostanek_prej[0] == run);
                    assert(celota.skip(stara.len() as int).skip(1) =~= celota.skip(
                        (stara.len() + 1) as int,
                    ));
                    assert(ostanek_prej.skip(1) =~= runi_vrstice(m, s, y as int, konec as int)
                        + vsi_runi(m, s, y - 1));
                    assert(celota.skip(r@.len() as int) == runi_vrstice(m, s, y as int, konec as int)
                        + vsi_runi(m, s, y - 1));
                    assert(skatla == skatla_runa(run, offset));
                }
                x = konec;
            } else {
                x = x + 1;
            }
        }
        proof {
            assert(runi_vrstice(m, s, y as int, sirina as int) =~= Seq::<(int, int, int)>::empty());
            assert(Seq::<(int, int, int)>::empty() + vsi_runi(m, s, y - 1) =~= vsi_runi(
                m,
                s,
                y - 1,
            ));
        }
        yy = yy - 1;
    }
    proof {
        assert(vsi_runi(m, s, -1) =~= Seq::<(int, int, int)>::empty());
        let celota = vsi_runi(m, s, visina - 1);
        assert(celota.skip(r@.len() as int) =~= Seq::<(int, int, int)>::empty());
    }
    r
}

} // verus!
