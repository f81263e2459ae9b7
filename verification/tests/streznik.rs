use vegovci::collision::Physics;
use vegovci::network::{Odhodni, Server, Ucinek, uredi_po_ubojih};
use vegovci::player::Player;
use vegovci::protocol::{Message, State, encode};

fn nov_streznik() -> (Server, Physics, Player) {
    let mut fiz = Physics::init();
    let player = Player::new(b"gazda".to_vec(), (0, 0), &mut fiz);
    let server = Server::new(b"gazda".to_vec());
    (server, fiz, player)
}

fn stanje_na(id: u32, x: i32, y: i32) -> State {
    State {
        id,
        position: (x, y),
        rotation: (1024, 0),
        anim_frame: (0, 32),
        attack_time: 5000,
        razdalja_meca: 0,
    }
}

#[test]
fn prvi_klient_dobi_id_ena_drugi_dva_in_seznam() {
    let (mut server, mut fiz, _player) = nov_streznik();
    let pozdrav1 = server.listen(&mut fiz);
    assert_eq!(pozdrav1.len(), 2);
    assert!(matches!(pozdrav1[0], Message::DodeljenId(1)));
    match &pozdrav1[1] {
        Message::UserInfo(id, ime, kills) => {
            assert_eq!(*id, 0);
            assert_eq!(ime, &b"gazda".to_vec());
            assert_eq!(*kills, 0);
        },
        _ => panic!("expected the host's roster entry"),
    }
    // the first peer reports its name, which the server records
    let _ = server.handle_msg(&mut fiz, Message::UserInfo(u32::MAX, b"ana".to_vec(), 0), 0);
    let pozdrav2 = server.listen(&mut fiz);
    assert_eq!(pozdrav2.len(), 3);
    assert!(matches!(pozdrav2[0], Message::DodeljenId(2)));
    match &pozdrav2[2] {
        Message::UserInfo(id, ime, kills) => {
            assert_eq!(*id, 1);
            assert_eq!(ime, &b"ana".to_vec());
            assert_eq!(*kills, 0);
        },
        _ => panic!("expected the first peer's roster entry"),
    }
}

#[test]
fn zamah_odbije_deset_zdravja_brez_smrti() {
    let (mut server, mut fiz, player) = nov_streznik();
    let _ = server.listen(&mut fiz);
    // victim stands right of the host, overlapping the sword hitbox
    let _ = server.handle_msg(&mut fiz, Message::PlayerState(stanje_na(0, 10000, 0)), 0);
    assert_eq!(server.clients[0].health, 100);
    let mut napadalec = player;
    napadalec.attack_time = 0;
    napadalec.rotation = (1024, 0);
    let (msgs, ucinki) = server.attack_host(&fiz, &napadalec);
    assert_eq!(server.clients[0].health, 90);
    let mut particles = 0;
    let mut died = 0;
    let mut attack_obvestila = 0;
    for m in &msgs {
        match m {
            Odhodni::Vsem(Message::HitParticles(_, _)) => particles += 1,
            Odhodni::Vsem(Message::PlayerDied(_, _)) => died += 1,
            Odhodni::Klientu(1, Message::Attack(90)) => attack_obvestila += 1,
            _ => {},
        }
    }
    assert_eq!(particles, 1);
    assert_eq!(died, 0);
    assert_eq!(attack_obvestila, 1);
    assert!(ucinki.iter().any(|u| matches!(u, Ucinek::Particles(_, _))));
}

#[test]
fn smrt_izloci_iz_posnetka_in_respawn_vrne() {
    let (mut server, mut fiz, player) = nov_streznik();
    let _ = server.listen(&mut fiz);
    let _ = server.handle_msg(&mut fiz, Message::PlayerState(stanje_na(0, 10000, 0)), 0);
    let mut napadalec = player;
    napadalec.attack_time = 0;
    napadalec.rotation = (1024, 0);
    let mut zadnji_died = 0;
    for _ in 0..10 {
        let (msgs, _) = server.attack_host(&fiz, &napadalec);
        for m in &msgs {
            if matches!(m, Odhodni::Vsem(Message::PlayerDied(1, 0))) {
                zadnji_died += 1;
            }
        }
    }
    assert_eq!(server.clients[0].health, 0);
    assert_eq!(zadnji_died, 1);
    assert_eq!(server.kills, 1);
    // the dead peer is left out of the snapshot; the live host stays in
    match server.poslji_vse_state(&napadalec) {
        Message::AllPlayersState(ss) => {
            assert_eq!(ss.len(), 1);
            assert_eq!(ss[0].id, 0);
        },
        _ => panic!("expected a snapshot"),
    }
    // once the timer elapses the peer comes back at full health
    let mut igralec = napadalec;
    let (msgs, _) = server.posodobi(3000, &mut igralec, &mut fiz);
    assert_eq!(server.clients[0].health, 100);
    let mut respawn = 0;
    for m in &msgs {
        if let Odhodni::Klientu(1, Message::Respawn(x, y)) = m {
            assert!(-200000 <= *x && *x < 200000);
            assert_eq!(*y, -250000);
            respawn += 1;
        }
    }
    assert_eq!(respawn, 1);
    match server.poslji_vse_state(&igralec) {
        Message::AllPlayersState(ss) => assert_eq!(ss.len(), 2),
        _ => panic!("expected a snapshot"),
    }
}

#[test]
fn padec_cez_rob_je_samomor() {
    let (mut server, mut fiz, player) = nov_streznik();
    let mut igralec = player;
    igralec.position = (0, 600000);
    let (msgs, ucinki) = server.posodobi(16, &mut igralec, &mut fiz);
    assert_eq!(server.health, 0);
    assert_eq!(msgs.len(), 1);
    assert!(matches!(msgs[0], Odhodni::Vsem(Message::PlayerDied(0, u32::MAX))));
    assert_eq!(ucinki, vec![Ucinek::SamSebe(0)]);
}

#[test]
fn odklop_objavi_natanko_eno_obvestilo() {
    let (mut server, mut fiz, _player) = nov_streznik();
    let _ = server.listen(&mut fiz);
    let _ = server.listen(&mut fiz);
    let (msgs, ucinki) = server.odstrani_klienta(&mut fiz, 0);
    assert_eq!(server.clients.len(), 1);
    assert_eq!(server.clients[0].state.id, 2);
    assert_eq!(msgs.len(), 1);
    assert!(matches!(msgs[0], Odhodni::Vsem(Message::PlayerDisconnected(1))));
    assert_eq!(ucinki, vec![Ucinek::Zapustil(1)]);
}

#[test]
fn pump_preko_inboxa() {
    let (mut server, mut fiz, _player) = nov_streznik();
    let _ = server.listen(&mut fiz);
    let mut tok = encode(&Message::UserInfo(u32::MAX, b"ana".to_vec(), 0));
    tok.extend(encode(&Message::PlayerState(stanje_na(9, 7000, -3000))));
    // and a partial record that must wait for the next read
    let rep = encode(&Message::Attack(50));
    tok.extend(rep[..2].to_vec());
    server.prejmi_bajte(0, &tok);
    let (_msgs, _ucinki, prejeta) = server.recv(&mut fiz, 0);
    assert_eq!(prejeta.len(), 2);
    assert_eq!(server.clients[0].user_name, b"ana".to_vec());
    // the canonical id survives the state overwrite
    assert_eq!(server.clients[0].state.id, 1);
    assert_eq!(server.clients[0].state.position, (7000, -3000));
    assert_eq!(server.clients[0].inbox.len(), 2);
}

#[test]
fn ime_za_id() {
    let (mut server, mut fiz, _player) = nov_streznik();
    let _ = server.listen(&mut fiz);
    let _ = server.handle_msg(&mut fiz, Message::UserInfo(u32::MAX, b"ana".to_vec(), 0), 0);
    assert_eq!(server.najdi_ime_za_id(0), b"gazda".to_vec());
    assert_eq!(server.najdi_ime_za_id(1), b"ana".to_vec());
    assert_eq!(server.najdi_ime_za_id(42), b"player".to_vec());
}

#[test]
fn nakljucni_respawn_v_pasu() {
    for _ in 0..50 {
        let (x, y) = Server::get_respawn_location();
        assert!(-200000 <= x && x < 200000);
        assert_eq!(y, -250000);
    }
}

#[test]
fn lestvica_urejena_padajoce() {
    let vhod = vec![
        (b"a".to_vec(), 1),
        (b"b".to_vec(), 5),
        (b"c".to_vec(), 3),
        (b"d".to_vec(), 5),
        (b"e".to_vec(), 0),
    ];
    let r = uredi_po_ubojih(vhod);
    let kills: Vec<i32> = r.iter().map(|p| p.1).collect();
    assert_eq!(kills, vec![5, 5, 3, 1, 0]);
    let mut imena: Vec<Vec<u8>> = r.iter().map(|p| p.0.clone()).collect();
    imena.sort();
    assert_eq!(
        imena,
        vec![b"a".to_vec(), b"b".to_vec(), b"c".to_vec(), b"d".to_vec(), b"e".to_vec()],
    );
}

#[test]
fn lestvica_streznika() {
    let (mut server, mut fiz, _player) = nov_streznik();
    let _ = server.listen(&mut fiz);
    let _ = server.handle_msg(&mut fiz, Message::UserInfo(u32::MAX, b"ana".to_vec(), 0), 0);
    server.clients[0].kills = 4;
    let r = server.get_leaderboard_data();
    assert_eq!(r.len(), 2);
    assert_eq!(r[0], (b"ana".to_vec(), 4));
    assert_eq!(r[1], (b"gazda".to_vec(), 0));
}

#[test]
fn pump_sprozi_napad() {
    // a state report with attack_time == 0 arriving through the inbox
    // triggers combat against the host
    let (mut server, mut fiz, player) = nov_streznik();
    let _ = server.listen(&mut fiz);
    let mut porocilo = stanje_na(1, -10000, 0);
    porocilo.attack_time = 0;
    server.prejmi_bajte(0, &encode(&Message::PlayerState(porocilo)));
    let (msgs, ucinki, prejeta) = server.recv(&mut fiz, 0);
    assert_eq!(prejeta.len(), 1);
    // the host stands inside the attacker's reach and loses ten health
    assert_eq!(server.health, 90);
    assert!(msgs.iter().any(|m| matches!(m, Odhodni::Vsem(Message::HitParticles(_, _)))));
    assert!(ucinki.iter().any(|u| matches!(u, Ucinek::Particles(_, _))));
    let _ = player;
}
