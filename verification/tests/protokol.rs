use vegovci::protocol::{DecodeError, Message, State, decode, encode};

fn stanje(id: u32) -> State {
    State {
        id,
        position: (-1500, 2500),
        rotation: (724, -724),
        anim_frame: (32, 64),
        attack_time: 99000,
        razdalja_meca: 21000,
    }
}

fn krog(m: &Message) -> (Message, usize) {
    let bytes = encode(m);
    let dolzina = bytes.len();
    let r = decode(&bytes, 0).expect("encoded message must decode");
    assert_eq!(r.1, dolzina);
    (r.0, r.1)
}

#[test]
fn krog_dodeljen_id() {
    match krog(&Message::DodeljenId(7)).0 {
        Message::DodeljenId(id) => assert_eq!(id, 7),
        _ => panic!("wrong variant"),
    }
}

#[test]
fn krog_user_info() {
    let m = Message::UserInfo(3, b"miha".to_vec(), -2);
    match krog(&m).0 {
        Message::UserInfo(id, ime, kills) => {
            assert_eq!(id, 3);
            assert_eq!(ime, b"miha".to_vec());
            assert_eq!(kills, -2);
        },
        _ => panic!("wrong variant"),
    }
}

#[test]
fn krog_user_info_prazno_ime() {
    match krog(&Message::UserInfo(9, Vec::new(), 0)).0 {
        Message::UserInfo(id, ime, kills) => {
            assert_eq!(id, 9);
            assert_eq!(ime.len(), 0);
            assert_eq!(kills, 0);
        },
        _ => panic!("wrong variant"),
    }
}

#[test]
fn krog_player_state() {
    match krog(&Message::PlayerState(stanje(4))).0 {
        Message::PlayerState(s) => assert_eq!(s, stanje(4)),
        _ => panic!("wrong variant"),
    }
}

#[test]
fn krog_all_players_state() {
    let m = Message::AllPlayersState(vec![stanje(0), stanje(1)]);
    match krog(&m).0 {
        Message::AllPlayersState(ss) => {
            assert_eq!(ss.len(), 2);
            assert_eq!(ss[0], stanje(0));
            assert_eq!(ss[1], stanje(1));
        },
        _ => panic!("wrong variant"),
    }
}

#[test]
fn krog_all_players_state_prazen() {
    match krog(&Message::AllPlayersState(Vec::new())).0 {
        Message::AllPlayersState(ss) => assert_eq!(ss.len(), 0),
        _ => panic!("wrong variant"),
    }
}

#[test]
fn krog_preostale_variante() {
    match krog(&Message::Attack(90)).0 {
        Message::Attack(h) => assert_eq!(h, 90),
        _ => panic!("wrong variant"),
    }
    match krog(&Message::Respawn(-120000, -250000)).0 {
        Message::Respawn(x, y) => {
            assert_eq!(x, -120000);
            assert_eq!(y, -250000);
        },
        _ => panic!("wrong variant"),
    }
    match krog(&Message::HitParticles(5, -5)).0 {
        Message::HitParticles(x, y) => {
            assert_eq!(x, 5);
            assert_eq!(y, -5);
        },
        _ => panic!("wrong variant"),
    }
    match krog(&Message::PlayerDied(2, u32::MAX)).0 {
        Message::PlayerDied(id, napadalec) => {
            assert_eq!(id, 2);
            assert_eq!(napadalec, u32::MAX);
        },
        _ => panic!("wrong variant"),
    }
    match krog(&Message::PlayerDisconnected(8)).0 {
        Message::PlayerDisconnected(id) => assert_eq!(id, 8),
        _ => panic!("wrong variant"),
    }
}

#[test]
fn tocni_bajti() {
    assert_eq!(encode(&Message::DodeljenId(1)), vec![0u8, 1, 0, 0, 0]);
    // signed payloads travel biased by 2^31
    assert_eq!(encode(&Message::Attack(10)), vec![4u8, 0x0a, 0, 0, 0x80]);
    assert_eq!(encode(&Message::Attack(-1)), vec![4u8, 0xff, 0xff, 0xff, 0x7f]);
}

#[test]
fn prekratek_zapis_je_ni_podatkov() {
    let bytes = encode(&Message::DodeljenId(300));
    for rez in 0..bytes.len() {
        let del = bytes[..rez].to_vec();
        assert!(matches!(decode(&del, 0), Err(DecodeError::NiPodatkov)));
    }
}

#[test]
fn neznan_tag_je_neveljaven() {
    let smeti = vec![9u8, 0, 0, 0, 0];
    assert!(matches!(decode(&smeti, 0), Err(DecodeError::Neveljavno)));
}

#[test]
fn zaporedna_zapisa_na_toku() {
    // two records back to back with no framing: the decoder walks them by
    // size alone
    let mut tok = encode(&Message::DodeljenId(1));
    tok.extend(encode(&Message::PlayerDied(1, 0)));
    let (prvi, naprej) = decode(&tok, 0).unwrap();
    assert!(matches!(prvi, Message::DodeljenId(1)));
    let (drugi, konec) = decode(&tok, naprej).unwrap();
    assert!(matches!(drugi, Message::PlayerDied(1, 0)));
    assert_eq!(konec, tok.len());
    assert!(matches!(decode(&tok, konec), Err(DecodeError::NiPodatkov)));
}
