use vegovci::collision::{AABB, LAYER_MAP, LAYER_PLAYER, Physics};
use vegovci::mapa::generate_map_colliders;
use vegovci::player::calc_sword_hitbox;

#[test]
fn overlaps_osnovno() {
    let a = AABB::new(0, 0, 10000, 10000);
    let b = AABB::new(5000, 5000, 10000, 10000);
    let c = AABB::new(20001, 0, 10000, 10000);
    assert!(a.overlaps(b));
    assert!(b.overlaps(a));
    assert!(!a.overlaps(c));
}

#[test]
fn overlaps_dotik_je_prekrivanje() {
    // inclusive boundaries: boxes that merely touch still count
    let a = AABB::new(0, 0, 10000, 10000);
    let b = AABB::new(10000, 0, 10000, 10000);
    assert!(a.overlaps(b));
}

#[test]
fn area_query_prazen_registar() {
    let fiz = Physics::init();
    let r = fiz.area_query(AABB::new(-100000, -100000, 200000, 200000), 0xffff_ffff);
    assert_eq!(r.len(), 0);
}

#[test]
fn area_query_filtrira_masko_in_obmocje() {
    let mut fiz = Physics::init();
    let _a = fiz.dodaj_dinamicen_obj(AABB::new(0, 0, 1000, 1000), LAYER_PLAYER, 0, 7);
    let _b = fiz.dodaj_dinamicen_obj(AABB::new(0, 0, 1000, 1000), LAYER_MAP, 0, 8);
    let _c = fiz.dodaj_dinamicen_obj(AABB::new(90000, 90000, 1000, 1000), LAYER_PLAYER, 0, 9);
    let r = fiz.area_query(AABB::new(-500, -500, 2000, 2000), LAYER_PLAYER);
    assert_eq!(r.len(), 1);
    assert_eq!(r[0].0, 7);
    assert_eq!(r[0].1, AABB::new(0, 0, 1000, 1000));
}

#[test]
fn sprosceni_slot_gre_naslednjemu() {
    // the freed slot is reused by the very next insertion, and the removed
    // collider never shows up in a query again
    let mut fiz = Physics::init();
    let a = fiz.dodaj_dinamicen_obj(AABB::new(0, 0, 1000, 1000), LAYER_PLAYER, 0, 1);
    let _b = fiz.dodaj_dinamicen_obj(AABB::new(0, 0, 1000, 1000), LAYER_PLAYER, 0, 2);
    fiz.izbrisi_dinamicen_obj(a);
    let _c = fiz.dodaj_dinamicen_obj(AABB::new(0, 0, 1000, 1000), LAYER_PLAYER, 0, 3);
    let r = fiz.area_query(AABB::new(-500, -500, 2000, 2000), LAYER_PLAYER);
    // scan order shows the newcomer in the freed slot, ahead of the survivor
    assert_eq!(r.len(), 2);
    assert_eq!(r[0].0, 3);
    assert_eq!(r[1].0, 2);
    assert_eq!(fiz.st_dinamicnih_obj(), 2);
}

#[test]
fn resi_trke_enakomerno_razmakne_dinamicna() {
    let mut fiz = Physics::init();
    let a = fiz.dodaj_dinamicen_obj(
        AABB::new(0, 0, 10000, 10000),
        LAYER_PLAYER,
        LAYER_PLAYER,
        1,
    );
    let b = fiz.dodaj_dinamicen_obj(
        AABB::new(6000, 0, 10000, 10000),
        LAYER_PLAYER,
        LAYER_PLAYER,
        2,
    );
    fiz.resi_trke();
    // x-overlap depth 4000 beats y depth 10000; even split, 2000 each
    assert_eq!(fiz.pozicija_obj(&a), (-2000, 0));
    assert_eq!(fiz.pozicija_obj(&b), (8000, 0));
}

#[test]
fn resi_trke_statika_miruje() {
    let mut fiz = Physics::init();
    let _tla = fiz.dodaj_staticen_obj(
        AABB::new(-50000, 10000, 100000, 10000),
        LAYER_MAP,
        LAYER_MAP | LAYER_PLAYER,
    );
    let igralec = fiz.dodaj_dinamicen_obj(
        AABB::new(0, 8000, 10000, 10000),
        LAYER_PLAYER,
        LAYER_PLAYER | LAYER_MAP,
        1,
    );
    fiz.resi_trke();
    // the static floor keeps its place; the body takes the full correction
    // along y (depth 8000 at the bottom edge)
    assert_eq!(fiz.pozicija_obj(&igralec), (0, 0));
    assert_eq!(fiz.st_staticnih_obj(), 1);
}

#[test]
fn brez_maske_ni_razresitve() {
    let mut fiz = Physics::init();
    let a = fiz.dodaj_dinamicen_obj(AABB::new(0, 0, 10000, 10000), LAYER_PLAYER, 0, 1);
    let b = fiz.dodaj_dinamicen_obj(AABB::new(6000, 0, 10000, 10000), LAYER_PLAYER, 0, 2);
    fiz.resi_trke();
    assert_eq!(fiz.pozicija_obj(&a), (0, 0));
    assert_eq!(fiz.pozicija_obj(&b), (6000, 0));
}

#[test]
fn ray_hit_zadene_in_zgresi() {
    let skatla = AABB::new(10000, -5000, 10000, 10000);
    assert_eq!(skatla.ray_hit((0, 0), (1000, 0)), Some((10000, 0)));
    assert_eq!(skatla.ray_hit((0, 0), (-1000, 0)), None);
    assert_eq!(skatla.ray_hit((0, 0), (0, 1000)), None);
    // origin inside the box is an immediate hit
    assert_eq!(skatla.ray_hit((12000, 0), (1000, 0)), Some((12000, 0)));
    // zero direction hits only when the origin is inside
    assert_eq!(skatla.ray_hit((12000, 0), (0, 0)), Some((12000, 0)));
    assert_eq!(skatla.ray_hit((0, 0), (0, 0)), None);
}

#[test]
fn ray_hit_diagonalno() {
    let skatla = AABB::new(10000, 10000, 10000, 10000);
    let r = skatla.ray_hit((0, 0), (1000, 1000));
    assert_eq!(r, Some((10000, 10000)));
}

#[test]
fn hitbox_meca_tocen_izracun() {
    // at the very start of a swing, facing right, with no extra reach:
    // easing contributes the whole 22 units
    let b = calc_sword_hitbox((0, 0), 0, 0, (1024, 0));
    assert_eq!(b.x, 6666);
    assert_eq!(b.y, -4000);
    assert_eq!(b.w, 32000);
    assert_eq!(b.h, 32000);
    // late in the swing the easing is gone
    let c = calc_sword_hitbox((0, 0), 300, 0, (1024, 0));
    assert_eq!(c.x, -8000);
    assert_eq!(c.y, -4000);
}

#[test]
fn mapa_en_kolider_na_run() {
    let mut fiz = Physics::init();
    // rows top to bottom: empty, [x.xx], [xxxx]
    let mreza = vec![
        false, false, false, false,
        true, false, true, true,
        true, true, true, true,
    ];
    let rocaji = generate_map_colliders(&mut fiz, &mreza, 4, 3, (0, 0));
    assert_eq!(rocaji.len(), 3);
    assert_eq!(fiz.st_staticnih_obj(), 3);
    // a dynamic body overlapping the floor strip is pushed out of it
    let telo = fiz.dodaj_dinamicen_obj(
        AABB::new(8000, 40000, 10000, 10000),
        LAYER_PLAYER,
        LAYER_PLAYER | LAYER_MAP,
        1,
    );
    fiz.resi_trke();
    assert_eq!(fiz.pozicija_obj(&telo), (8000, 48000));
}
