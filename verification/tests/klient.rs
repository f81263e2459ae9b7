use vegovci::client::Client;
use vegovci::collision::Physics;
use vegovci::network::Ucinek;
use vegovci::player::{Animacija, Player, VhodIgralca, dolzina};
use vegovci::protocol::{Message, State, encode};

fn nov_klient() -> (Client, Physics, Player) {
    let mut fiz = Physics::init();
    let player = Player::new(b"ana".to_vec(), (0, 0), &mut fiz);
    let (klient, pozdrav) = Client::new(b"ana".to_vec());
    match pozdrav {
        Message::UserInfo(id, ime, kills) => {
            assert_eq!(id, u32::MAX);
            assert_eq!(ime, b"ana".to_vec());
            assert_eq!(kills, 0);
        },
        _ => panic!("expected the hello message"),
    }
    (klient, fiz, player)
}

fn stanje(id: u32) -> State {
    State {
        id,
        position: (1, 2),
        rotation: (1024, 0),
        anim_frame: (0, 32),
        attack_time: 100,
        razdalja_meca: 0,
    }
}

#[test]
fn dodeljen_id_je_enkraten_prevzem() {
    let (mut klient, mut fiz, mut igralec) = nov_klient();
    assert_eq!(klient.id, u32::MAX);
    let r = klient.handle_msg(&mut fiz, Message::DodeljenId(3), &mut igralec);
    assert_eq!(klient.id, 3);
    assert_eq!(r.len(), 0);
}

#[test]
fn posnetek_zamenja_seznam_stanj() {
    let (mut klient, mut fiz, mut igralec) = nov_klient();
    let _ = klient.handle_msg(
        &mut fiz,
        Message::AllPlayersState(vec![stanje(0), stanje(2)]),
        &mut igralec,
    );
    assert_eq!(klient.net_states.len(), 2);
    assert_eq!(klient.net_states[1].id, 2);
    let _ = klient.handle_msg(&mut fiz, Message::AllPlayersState(Vec::new()), &mut igralec);
    assert_eq!(klient.net_states.len(), 0);
}

#[test]
fn roster_vstavi_in_zamenja() {
    let (mut klient, mut fiz, mut igralec) = nov_klient();
    let r = klient.handle_msg(
        &mut fiz,
        Message::UserInfo(2, b"bor".to_vec(), 1),
        &mut igralec,
    );
    assert_eq!(r, vec![Ucinek::Pridruzil(2)]);
    assert_eq!(klient.net_users.len(), 1);
    assert_eq!(klient.net_users[0].1.name, b"bor".to_vec());
    // a repeated entry for the same id replaces, never duplicates
    let _ = klient.handle_msg(
        &mut fiz,
        Message::UserInfo(2, b"borut".to_vec(), 4),
        &mut igralec,
    );
    assert_eq!(klient.net_users.len(), 1);
    assert_eq!(klient.net_users[0].1.name, b"borut".to_vec());
    assert_eq!(klient.net_users[0].1.kills, 4);
}

#[test]
fn zdravje_pride_od_streznika() {
    let (mut klient, mut fiz, mut igralec) = nov_klient();
    let _ = klient.handle_msg(&mut fiz, Message::Attack(70), &mut igralec);
    assert_eq!(klient.health, 70);
}

#[test]
fn respawn_vrne_zdravje_in_prestavi() {
    let (mut klient, mut fiz, mut igralec) = nov_klient();
    let _ = klient.handle_msg(&mut fiz, Message::Attack(0), &mut igralec);
    let _ = klient.handle_msg(&mut fiz, Message::Respawn(-120000, -250000), &mut igralec);
    assert_eq!(klient.health, 100);
    assert_eq!(igralec.position, (-120000, -250000));
    assert_eq!(fiz.pozicija_obj(&igralec.aabb_ref), (-120000, -250000));
}

#[test]
fn smrtna_obvestila_pripisejo_uboj() {
    let (mut klient, mut fiz, mut igralec) = nov_klient();
    let _ = klient.handle_msg(&mut fiz, Message::UserInfo(2, b"bor".to_vec(), 0), &mut igralec);
    let r = klient.handle_msg(&mut fiz, Message::PlayerDied(5, 2), &mut igralec);
    assert_eq!(r, vec![Ucinek::Ubil(2, 5)]);
    assert_eq!(klient.net_users[0].1.kills, 1);
    // the no-attacker sentinel is a self-kill notice and credits nobody
    let r2 = klient.handle_msg(&mut fiz, Message::PlayerDied(2, u32::MAX), &mut igralec);
    assert_eq!(r2, vec![Ucinek::SamSebe(2)]);
    assert_eq!(klient.net_users[0].1.kills, 1);
}

#[test]
fn odklop_odstrani_iz_rosterja() {
    let (mut klient, mut fiz, mut igralec) = nov_klient();
    let _ = klient.handle_msg(&mut fiz, Message::UserInfo(2, b"bor".to_vec(), 0), &mut igralec);
    let _ = klient.handle_msg(&mut fiz, Message::UserInfo(3, b"cene".to_vec(), 0), &mut igralec);
    let r = klient.handle_msg(&mut fiz, Message::PlayerDisconnected(2), &mut igralec);
    assert_eq!(r, vec![Ucinek::Zapustil(2)]);
    assert_eq!(klient.net_users.len(), 1);
    assert_eq!(klient.net_users[0].0, 3);
}

#[test]
fn klientov_pump_preko_inboxa() {
    let (mut klient, mut fiz, mut igralec) = nov_klient();
    let mut tok = encode(&Message::DodeljenId(4));
    tok.extend(encode(&Message::HitParticles(10, 20)));
    let rep = encode(&Message::Attack(50));
    tok.extend(rep[..3].to_vec());
    klient.prejmi_bajte(&tok);
    let (ucinki, prejeta) = klient.recv(&mut fiz, &mut igralec);
    assert_eq!(prejeta.len(), 2);
    assert_eq!(klient.id, 4);
    assert_eq!(ucinki, vec![Ucinek::Particles(10, 20)]);
    assert_eq!(klient.inbox.len(), 3);
}

#[test]
fn lestvica_klienta() {
    let (mut klient, mut fiz, mut igralec) = nov_klient();
    let _ = klient.handle_msg(&mut fiz, Message::UserInfo(2, b"bor".to_vec(), 1), &mut igralec);
    let _ = klient.handle_msg(&mut fiz, Message::UserInfo(3, b"cene".to_vec(), 6), &mut igralec);
    let r = klient.get_leaderboard_data();
    assert_eq!(r.len(), 2);
    assert_eq!(r[0], (b"cene".to_vec(), 6));
    assert_eq!(r[1], (b"bor".to_vec(), 1));
}

#[test]
fn gravitacija_potegne_navzdol() {
    let mut fiz = Physics::init();
    let mut igralec = Player::new(b"ana".to_vec(), (0, 0), &mut fiz);
    let vhod = VhodIgralca { levo: false, desno: false, skok: false, napad: false, miska: (0, 0) };
    igralec.posodobi(16, vhod, &mut fiz);
    // starting airborne at rest: v = 1500 * 16 mm/s, dy = v * 16 / 1000
    assert_eq!(fiz.pozicija_obj(&igralec.aabb_ref), (0, 384));
    assert_eq!(igralec.velocity_y, 24000);
}

#[test]
fn napad_ponastavi_stoparico() {
    let mut fiz = Physics::init();
    let mut igralec = Player::new(b"ana".to_vec(), (0, 0), &mut fiz);
    assert_eq!(igralec.attack_time, 99000);
    let vhod = VhodIgralca { levo: false, desno: false, skok: false, napad: true, miska: (0, 0) };
    igralec.posodobi(16, vhod, &mut fiz);
    assert_eq!(igralec.attack_time, 0);
    let mirno = VhodIgralca { levo: false, desno: false, skok: false, napad: false, miska: (0, 0) };
    igralec.posodobi(16, mirno, &mut fiz);
    assert_eq!(igralec.attack_time, 16);
}

#[test]
fn hoja_izbere_hodno_animacijo() {
    let mut fiz = Physics::init();
    let mut igralec = Player::new(b"ana".to_vec(), (0, 0), &mut fiz);
    let desno = VhodIgralca { levo: false, desno: true, skok: false, napad: false, miska: (0, 0) };
    igralec.posodobi(16, desno, &mut fiz);
    assert_eq!(igralec.trenutna_anim, 1);
    let mirno = VhodIgralca { levo: false, desno: false, skok: false, napad: false, miska: (0, 0) };
    igralec.posodobi(16, mirno, &mut fiz);
    assert_eq!(igralec.trenutna_anim, 0);
}

#[test]
fn animacija_tocen_frame() {
    let mut a = Animacija::new((0, 32, 32, 32), 2, 350, true);
    assert_eq!(a.izr_frame_xy(), (0, 32));
    a.posodobi(400);
    assert_eq!(a.izr_frame_xy(), (32, 32));
    a.posodobi(400);
    // 800 ms wraps past the 700 ms cycle back into the first frame
    assert_eq!(a.izr_frame_xy(), (0, 32));
}

#[test]
fn dolzina_tocna() {
    assert_eq!(dolzina(3000, 4000), 5000);
    assert_eq!(dolzina(0, 0), 0);
    assert_eq!(dolzina(-3000, -4000), 5000);
    assert_eq!(dolzina(1, 1), 1);
}
