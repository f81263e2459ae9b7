//! Client reconciliation: the peer's local mirror of the world. It never
//! decides its own health, death or combat outcome — those always arrive
//! from the server; every tick it reports its own locally-simulated state
//! upstream, as advisory input.

use vstd::prelude::*;
use crate::collision::Physics;
use crate::network::Ucinek;
use crate::player::Player;
use crate::protocol::{Message, MessageV, NEZNAN_ID, State, decode};

verus! {

/// What the client remembers of one roster entry.
pub struct UserInfo {
    pub name: Vec<u8>,
    pub kills: i32,
}

/// The remote peer's view of the session: its assigned id, the latest
/// snapshot of remote states, the roster, and its server-decided health.
pub struct Client {
    pub id: u32,
    pub net_states: Vec<State>,
    pub net_users: Vec<(u32, UserInfo)>,
    pub health: i32,
    pub nov_leaderboard: bool,
    pub inbox: Vec<u8>,
}

/// The roster as mathematical rows `(id, name, kills)`.
pub open spec fn pogled_uporabnikov(u: Seq<(u32, UserInfo)>) -> Seq<(u32, Seq<u8>, i32)> {
    Seq::new(u.len(), |k: int| (u[k].0, (u[k].1.name)@, u[k].1.kills))
}

/// First roster index carrying `id`, or -1.
pub open spec fn najdi_uporabnika(u: Seq<(u32, UserInfo)>, id: u32) -> int
    decreases u.len(),
{
    if u.len() == 0 {
        -1
    } else if u[0].0 == id {
        0
    } else {
        let r = najdi_uporabnika(u.skip(1), id);
        if r < 0 {
            -1
        } else {
            r + 1
        }
    }
}

/// `najdi_uporabnika` really is the first match.
pub proof fn lemma_najdi_uporabnika_znacilnost(u: Seq<(u32, UserInfo)>, id: u32)
    ensures
        najdi_uporabnika(u, id) == -1 ==> forall|k: int|
            0 <= k < u.len() ==> (#[trigger] u[k]).0 != id,
        najdi_uporabnika(u, id) >= 0 ==> 0 <= najdi_uporabnika(u, id) < u.len() && u[
            najdi_uporabnika(u, id)
        ].0 == id && forall|k: int| 0 <= k < najdi_uporabnika(u, id) ==> (#[trigger] u[k]).0 != id,
    decreases u.len(),
{
    if u.len() > 0 && !(u[0].0 == id) {
        lemma_najdi_uporabnika_znacilnost(u.skip(1), id);
        let r = najdi_uporabnika(u.skip(1), id);
        if r == -1 {
            assert forall|k: int| 0 <= k < u.len() implies (#[trigger] u[k]).0 != id by {
                if k > 0 {
                    assert(u.skip(1)[k - 1] == u[k]);
                }
            }
        } else {
            assert(u[r + 1] == u.skip(1)[r]);
            assert forall|k: int| 0 <= k < r + 1 implies (#[trigger] u[k]).0 != id by {
                if k > 0 {
                    assert(u.skip(1)[k - 1] == u[k]);
                }
            }
        }
    }
}

/// First view-level roster row carrying `id`, or -1.
pub open spec fn najdi_vrstico(u: Seq<(u32, Seq<u8>, i32)>, id: u32) -> int
    decreases u.len(),
{
    if u.len() == 0 {
        -1
    } else if u[0].0 == id {
        0
    } else {
        let r = najdi_vrstico(u.skip(1), id);
        if r < 0 {
            -1
        } else {
            r + 1
        }
    }
}

/// The view-level lookup agrees with the roster lookup.
pub proof fn lemma_najdi_ujema(u: Seq<(u32, UserInfo)>, id: u32)
    ensures
        najdi_vrstico(pogled_uporabnikov(u), id) == najdi_uporabnika(u, id),
    decreases u.len(),
{
    if u.len() > 0 {
        assert(pogled_uporabnikov(u)[0].0 == u[0].0);
        if !(u[0].0 == id) {
            lemma_najdi_ujema(u.skip(1), id);
            assert(pogled_uporabnikov(u).skip(1) =~= pogled_uporabnikov(u.skip(1)));
        }
    }
}

/// Everything one inbound message can touch on the client's side, as one
/// mathematical value: the session fields, the roster rows, the local
/// player's position and collider slots, and the dynamic arena.
#[verifier::ext_equal]
pub struct KlientPogledV {
    pub id: u32,
    pub net_states: Seq<State>,
    pub uporabniki: Seq<(u32, Seq<u8>, i32)>,
    pub health: i32,
    pub nov_leaderboard: bool,
    pub pozicija: (i32, i32),
    pub telo_idx: int,
    pub mec_idx: int,
    pub din: Seq<Option<crate::collision::Objekt>>,
}

pub open spec fn klientov_pogled(c: Client, player: Player, fiz: Physics) -> KlientPogledV {
    KlientPogledV {
        id: c.id,
        net_states: c.net_states@,
        uporabniki: pogled_uporabnikov(c.net_users@),
        health: c.health,
        nov_leaderboard: c.nov_leaderboard,
        pozicija: player.position,
        telo_idx: player.aabb_ref.idx(),
        mec_idx: player.sword_ref.idx(),
        din: fiz.din(),
    }
}

/// A collider slot warped to a new position, everything else kept.
pub open spec fn model_warp(
    din: Seq<Option<crate::collision::Objekt>>,
    idx: int,
    x: i32,
    y: i32,
) -> Seq<Option<crate::collision::Objekt>> {
    din.update(
        idx,
        Some(
            crate::collision::Objekt {
                aabb: crate::collision::AABB {
                    x: x as i64,
                    y: y as i64,
                    ..(din[idx]->0).aabb
                },
                ..din[idx]->0
            },
        ),
    )
}

/// What one inbound message does on the client: the reconciliation rules,
/// as a function.
pub open spec fn model_klient_sporocila(w: KlientPogledV, m: MessageV) -> (
    KlientPogledV,
    Seq<Ucinek>,
) {
    match m {
        MessageV::DodeljenId(id) => (KlientPogledV { id, ..w }, Seq::empty()),
        MessageV::AllPlayersState(ss) => (KlientPogledV { net_states: ss, ..w }, Seq::empty()),
        MessageV::UserInfo(id, ime, kills) => {
            let j = najdi_vrstico(w.uporabniki, id);
            let u2 = if j >= 0 {
                w.uporabniki.update(j, (id, ime, kills))
            } else {
                w.uporabniki.push((id, ime, kills))
            };
            (
                KlientPogledV { uporabniki: u2, nov_leaderboard: true, ..w },
                seq![Ucinek::Pridruzil(id)],
            )
        },
        MessageV::Attack(nh) => (KlientPogledV { health: nh, ..w }, Seq::empty()),
        MessageV::Respawn(x, y) => (
            KlientPogledV {
                health: 100,
                pozicija: (x, y),
                din: model_warp(model_warp(w.din, w.telo_idx, x, y), w.mec_idx, x, y),
                ..w
            },
            Seq::empty(),
        ),
        MessageV::HitParticles(x, y) => (w, seq![Ucinek::Particles(x, y)]),
        MessageV::PlayerDied(id, napadalec) => {
            if napadalec != NEZNAN_ID {
                let j = najdi_vrstico(w.uporabniki, napadalec);
                let u2 = if j >= 0 {
                    w.uporabniki.update(
                        j,
                        (
                            w.uporabniki[j].0,
                            w.uporabniki[j].1,
                            if w.uporabniki[j].2 < i32::MAX {
                                (w.uporabniki[j].2 + 1) as i32
                            } else {
                                w.uporabniki[j].2
                            },
                        ),
                    )
                } else {
                    w.uporabniki
                };
                (
                    KlientPogledV {
                        uporabniki: u2,
                        nov_leaderboard: if j >= 0 {
                            true
                        } else {
                            w.nov_leaderboard
                        },
                        ..w
                    },
                    seq![Ucinek::Ubil(napadalec, id)],
                )
            } else {
                (w, seq![Ucinek::SamSebe(id)])
            }
        },
        MessageV::PlayerDisconnected(id) => {
            let j = najdi_vrstico(w.uporabniki, id);
            let u2 = if j >= 0 {
                w.uporabniki.remove(j)
            } else {
                w.uporabniki
            };
            (
                KlientPogledV { uporabniki: u2, nov_leaderboard: true, ..w },
                seq![Ucinek::Zapustil(id)],
            )
        },
        _ => (w, Seq::empty()),
    }
}

/// A whole drained inbox: each message applied to the state the previous
/// ones left, effects in order.
pub open spec fn model_klient_pump(w: KlientPogledV, ms: Seq<MessageV>) -> (
    KlientPogledV,
    Seq<Ucinek>,
)
    decreases ms.len(),
{
    if ms.len() == 0 {
        (w, Seq::empty())
    } else {
        let korak = model_klient_sporocila(w, ms[0]);
        let naprej = model_klient_pump(korak.0, ms.skip(1));
        (naprej.0, korak.1 + naprej.1)
    }
}

impl Client {
    pub open spec fn wf(&self) -> bool {
        &&& forall|i: int, j: int|
            0 <= i < j < self.net_users@.len() ==> self.net_users@[i].0 != self.net_users@[j].0
        &&& forall|i: int|
            0 <= i < self.net_users@.len() ==> ((#[trigger] self.net_users@[i]).1.name)@.len()
                < 0x1_0000_0000
    }

    /// A fresh client, before the handshake: no id yet, full health, empty
    /// roster, plus the hello message to send the server.
    pub fn new(name: Vec<u8>) -> (r: (Client, Message))
        requires
            name@.len() < 0x1_0000_0000,
        ensures
            r.0.wf(),
            r.0.id == NEZNAN_ID,
            r.0.net_states@.len() == 0,
            r.0.net_users@.len() == 0,
            r.0.health == 100,
            r.0.nov_leaderboard,
            r.0.inbox@.len() == 0,
            r.1@ == MessageV::UserInfo(NEZNAN_ID, name@, 0),
    {
        let c = Client {
            id: NEZNAN_ID,
            net_states: Vec::new(),
            net_users: Vec::new(),
            health: 100,
            nov_leaderboard: true,
            inbox: Vec::new(),
        };
        (c, Message::UserInfo(NEZNAN_ID, name, 0))
    }

    fn najdi_uporabnika_exec(&self, id: u32) -> (r: Option<usize>)
        ensures
            najdi_uporabnika(self.net_users@, id) < 0 <==> r is None,
            r matches Some(j) ==> j as int == najdi_uporabnika(self.net_users@, id) && (j as int)
                < self.net_users@.len() && self.net_users@[j as int].0 == id,
    {
        proof {
            lemma_najdi_uporabnika_znacilnost(self.net_users@, id);
        }
        let n = self.net_users.len();
        let mut i: usize = 0;
        while i < n
            invariant
                n == self.net_users@.len(),
                i <= n,
                forall|k: int| 0 <= k < i ==> (#[trigger] self.net_users@[k]).0 != id,
            decreases n - i,
        {
            if self.net_users[i].0 == id {
                proof {
                    let u = self.net_users@;
                    lemma_najdi_uporabnika_znacilnost(u, id);
                    let f = najdi_uporabnika(u, id);
                    assert(f == i as int);
                }
                return Some(i);
            }
            i = i + 1;
        }
        proof {
            let f = najdi_uporabnika(self.net_users@, id);
            assert(f == -1);
        }
        None
    }

    /// Dispatches one server message: id assignment, snapshot replacement,
    /// roster/kill updates, the server-decided health, respawn teleports,
    /// and cosmetic notices. The client trusts all of them unconditionally;
    /// combat outcomes are never decided here.
    #[verifier::rlimit(100)]
    pub fn handle_msg(&mut self, fiz: &mut Physics, msg: Message, player: &mut Player) -> (r: Vec<
        Ucinek,
    >)
        requires
            old(self).wf(),
            old(player).wf(*old(fiz)),
            old(fiz).wf(),
            msg@.wf(),
        ensures
            final(self).wf(),
            final(player).wf(*final(fiz)),
            final(fiz).wf(),
            final(fiz).sta() == old(fiz).sta(),
            final(fiz).din().len() == old(fiz).din().len(),
            final(fiz).dinamicni.free@ == old(fiz).dinamicni.free@,
            final(self).inbox == old(self).inbox,
            ({
                let u = old(self).net_users@;
                match msg@ {
                    MessageV::DodeljenId(id) => *final(self) == (Client {
                        id,
                        ..*old(self)
                    }) && r@.len() == 0 && *final(player) == *old(player) && *final(fiz) == *old(fiz),
                    MessageV::AllPlayersState(ss) => final(self).net_states@ == ss && final(self).id == old(self).id && final(self).health == old(self).health && final(self).net_users == old(self).net_users && final(self).nov_leaderboard == old(self).nov_leaderboard && r@.len() == 0 && *final(player) == *old(player)
                        && *final(fiz) == *old(fiz),
                    MessageV::UserInfo(id, ime, kills) => {
                        let j = najdi_uporabnika(u, id);
                        &&& (j >= 0 ==> final(self).net_users@.len() == u.len() && pogled_uporabnikov(
                            final(self).net_users@,
                        ) == pogled_uporabnikov(u).update(j, (id, ime, kills)))
                        &&& (j < 0 ==> pogled_uporabnikov(final(self).net_users@)
                            == pogled_uporabnikov(u).push((id, ime, kills)))
                        &&& final(self).nov_leaderboard
                        &&& final(self).id == old(self).id
                        &&& final(self).health == old(self).health
                        &&& final(self).net_states == old(self).net_states
                        &&& r@ == seq![Ucinek::Pridruzil(id)]
                        &&& *final(player) == *old(player) && *final(fiz) == *old(fiz)
                    },
                    MessageV::Attack(nh) => *final(self) == (Client {
                        health: nh,
                        ..*old(self)
                    }) && r@.len() == 0 && *final(player) == *old(player) && *final(fiz) == *old(fiz),
                    MessageV::Respawn(x, y) => *final(self) == (Client {
                        health: 100,
                        ..*old(self)
                    }) && r@.len() == 0 && *final(player) == (Player {
                        position: (x, y),
                        ..*old(player)
                    }) && final(fiz).din() == old(fiz).din().update(
                        old(player).aabb_ref.idx(),
                        Some(
                            crate::collision::Objekt {
                                aabb: crate::collision::AABB {
                                    x: x as i64,
                                    y: y as i64,
                                    ..(old(fiz).din()[old(player).aabb_ref.idx()]->0).aabb
                                },
                                ..old(fiz).din()[old(player).aabb_ref.idx()]->0
                            },
                        ),
                    ).update(
                        old(player).sword_ref.idx(),
                        Some(
                            crate::collision::Objekt {
                                aabb: crate::collision::AABB {
                                    x: x as i64,
                                    y: y as i64,
                                    ..(old(fiz).din()[old(player).sword_ref.idx()]->0).aabb
                                },
                                ..old(fiz).din()[old(player).sword_ref.idx()]->0
                            },
                        ),
                    ),
                    MessageV::HitParticles(x, y) => *final(self) == *old(self) && r@ == seq![
                        Ucinek::Particles(x, y),
                    ] && *final(player) == *old(player) && *final(fiz) == *old(fiz),
                    MessageV::PlayerDied(id, napadalec) => {
                        &&& (napadalec != NEZNAN_ID ==> {
                            let j = najdi_uporabnika(u, napadalec);
                            &&& r@ == seq![Ucinek::Ubil(napadalec, id)]
                            &&& (j >= 0 ==> final(self).net_users@.len() == u.len()
                                && pogled_uporabnikov(final(self).net_users@)
                                == pogled_uporabnikov(u).update(
                                j,
                                (
                                    u[j].0,
                                    (u[j].1.name)@,
                                    if u[j].1.kills < i32::MAX {
                                        (u[j].1.kills + 1) as i32
                                    } else {
                                        u[j].1.kills
                                    },
                                ),
                            ) && final(self).nov_leaderboard)
                            &&& (j < 0 ==> final(self).net_users == old(self).net_users && final(self).nov_leaderboard == old(self).nov_leaderboard)
                        })
                        &&& (napadalec == NEZNAN_ID ==> final(self).net_users == old(self).net_users && final(self).nov_leaderboard == old(self).nov_leaderboard
                            && r@ == seq![Ucinek::SamSebe(id)])
                        &&& final(self).id == old(self).id
                        &&& final(self).health == old(self).health
                        &&& final(self).net_states == old(self).net_states
                        &&& *final(player) == *old(player) && *final(fiz) == *old(fiz)
                    },
                    MessageV::PlayerDisconnected(id) => {
                        let j = najdi_uporabnika(u, id);
                        &&& (j >= 0 ==> final(self).net_users@ == u.remove(j))
                        &&& (j < 0 ==> final(self).net_users@ == u)
                        &&& final(self).nov_leaderboard
                        &&& final(self).id == old(self).id
                        &&& final(self).health == old(self).health
                        &&& final(self).net_states == old(self).net_states
                        &&& r@ == seq![Ucinek::Zapustil(id)]
                        &&& *final(player) == *old(player) && *final(fiz) == *old(fiz)
                    },
                    _ => *final(self) == *old(self) && r@.len() == 0 && *final(player) == *old(player) && *final(fiz) == *old(fiz),
                }
            }),
    {
        let mut ucinki: Vec<Ucinek> = Vec::new();
        match msg {
            Message::DodeljenId(id) => {
                self.id = id;
            },
            Message::AllPlayersState(states) => {
                self.net_states = states;
            },
            Message::UserInfo(id, ime, kills) => {
                ucinki.push(Ucinek::Pridruzil(id));
                match self.najdi_uporabnika_exec(id) {
                    Some(j) => {
                        let u = &mut self.net_users[j];
                        u.1 = UserInfo { name: ime, kills };
                        proof {
                            assert(pogled_uporabnikov(self.net_users@) =~= pogled_uporabnikov(
                                old(self).net_users@,
                            ).update(
                                najdi_uporabnika(old(self).net_users@, id),
                                (id, ime@, kills),
                            ));
                        }
                    },
                    None => {
                        self.net_users.push((id, UserInfo { name: ime, kills }));
                        proof {
                            lemma_najdi_uporabnika_znacilnost(old(self).net_users@, id);
                            assert(pogled_uporabnikov(self.net_users@) =~= pogled_uporabnikov(
                                old(self).net_users@,
                            ).push((id, ime@, kills)));
                        }
                    },
                }
                self.nov_leaderboard = true;
            },
            Message::Attack(nh) => {
                self.health = nh;
            },
            Message::Respawn(x, y) => {
                self.health = 100;
                player.nastavi_pozicijo((x, y), fiz);
            },
            Message::HitParticles(x, y) => {
                ucinki.push(Ucinek::Particles(x, y));
            },
            Message::PlayerDied(id, napadalec) => {
                if napadalec != NEZNAN_ID {
                    ucinki.push(Ucinek::Ubil(napadalec, id));
                    match self.najdi_uporabnika_exec(napadalec) {
                        Some(j) => {
                            let novi_kills = if self.net_users[j].1.kills < i32::MAX {
                                self.net_users[j].1.kills + 1
                            } else {
                                self.net_users[j].1.kills
                            };
                            let u = &mut self.net_users[j];
                            u.1.kills = novi_kills;
                            self.nov_leaderboard = true;
                            proof {
                                let stari = old(self).net_users@;
                                let f = najdi_uporabnika(stari, napadalec);
                                assert(pogled_uporabnikov(self.net_users@) =~= pogled_uporabnikov(
                                    stari,
                                ).update(
                                    f,
                                    (
                                        stari[f].0,
                                        (stari[f].1.name)@,
                                        if stari[f].1.kills < i32::MAX {
                                            (stari[f].1.kills + 1) as i32
                                        } else {
                                            stari[f].1.kills
                                        },
                                    ),
                                ));
                            }
                        },
                        None => {},
                    }
                } else {
                    ucinki.push(Ucinek::SamSebe(id));
                }
            },
            Message::PlayerDisconnected(id) => {
                ucinki.push(Ucinek::Zapustil(id));
                match self.najdi_uporabnika_exec(id) {
                    Some(j) => {
                        let _ = self.net_users.remove(j);
                    },
                    None => {},
                }
                self.nov_leaderboard = true;
                proof {
                    let u = old(self).net_users@;
                    let f = najdi_uporabnika(u, id);
                    if f >= 0 {
                        assert forall|i: int, j2: int|
                            0 <= i < j2 < self.net_users@.len() implies self.net_users@[i].0
                            != self.net_users@[j2].0 by {
                            assert(self.net_users@[i] == (if i < f {
                                u[i]
                            } else {
                                u[i + 1]
                            }));
                            assert(self.net_users@[j2] == (if j2 < f {
                                u[j2]
                            } else {
                                u[j2 + 1]
                            }));
                        }
                    }
                }
            },
            Message::PlayerState(_) => {},
        }
        ucinki
    }

    /// Hands the client bytes read off the server socket.
    pub fn prejmi_bajte(&mut self, bytes: &Vec<u8>)
        requires
            old(self).wf(),
        ensures
            final(self).wf(),
            final(self).inbox@ == old(self).inbox@ + bytes@,
            final(self).id == old(self).id,
            final(self).health == old(self).health,
            final(self).net_states == old(self).net_states,
            final(self).net_users == old(self).net_users,
            final(self).nov_leaderboard == old(self).nov_leaderboard,
    {
        self.inbox.extend_from_slice(bytes.as_slice());
    }

    /// Drains the inbox: repeatedly decodes one message and applies it,
    /// stopping at a short or malformed record (kept for the next tick).
    /// Returns the cosmetic effects and the decoded messages, in order.
    #[verifier::rlimit(100)]
    pub fn recv(&mut self, fiz: &mut Physics, player: &mut Player) -> (r: (
        Vec<Ucinek>,
        Vec<Message>,
    ))
        requires
            old(self).wf(),
            old(player).wf(*old(fiz)),
            old(fiz).wf(),
        ensures
            final(self).wf(),
            final(player).wf(*final(fiz)),
            final(fiz).wf(),
            final(fiz).sta() == old(fiz).sta(),
            final(fiz).din().len() == old(fiz).din().len(),
            final(fiz).dinamicni.free@ == old(fiz).dinamicni.free@,
            *final(player) == (Player { position: final(player).position, ..*old(player) }),
            ({
                let stari = old(self).inbox@;
                let raz = crate::protocol::spec_razcep(stari, (stari.len() + 1) as nat);
                let konec = model_klient_pump(
                    klientov_pogled(*old(self), *old(player), *old(fiz)),
                    raz.0,
                );
                &&& final(self).inbox@ == stari.skip(raz.1)
                &&& r.1@.len() == raz.0.len()
                &&& forall|k: int| 0 <= k < raz.0.len() ==> (#[trigger] r.1@[k])@ == raz.0[k]
                &&& klientov_pogled(*final(self), *final(player), *final(fiz)) == konec.0
                &&& r.0@ == konec.1
            }),
    {
        let ghost stari = self.inbox@;
        let ghost raz = crate::protocol::spec_razcep(stari, (stari.len() + 1) as nat);
        let ghost cilj = model_klient_pump(
            klientov_pogled(*old(self), *old(player), *old(fiz)),
            raz.0,
        );
        let mut ucinki: Vec<Ucinek> = Vec::new();
        let mut prejeta: Vec<Message> = Vec::new();
        let mut offset: usize = 0;
        let n = self.inbox.len();
        proof {
            assert(stari.skip(0) =~= stari);
            assert(Seq::new(prejeta@.len(), |k: int| prejeta@[k]@) + raz.0 =~= raz.0);
            assert(Seq::<Ucinek>::empty() + cilj.1 =~= cilj.1);
        }
        loop
            invariant
                self.wf(),
                player.wf(*fiz),
                fiz.wf(),
                fiz.sta() == old(fiz).sta(),
                fiz.din().len() == old(fiz).din().len(),
                fiz.dinamicni.free@ == old(fiz).dinamicni.free@,
                self.inbox@ == stari,
                n == stari.len(),
                offset <= n,
                raz == crate::protocol::spec_razcep(stari, (stari.len() + 1) as nat),
                *player == (Player { position: player.position, ..*old(player) }),
                ({
                    let rem = crate::protocol::spec_razcep(
                        stari.skip(offset as int),
                        (stari.len() + 1 - offset) as nat,
                    );
                    let rem_pump = model_klient_pump(klientov_pogled(*self, *player, *fiz), rem.0);
                    &&& raz.0 == Seq::new(prejeta@.len(), |k: int| prejeta@[k]@) + rem.0
                    &&& raz.1 == offset + rem.1
                    &&& rem_pump.0 == cilj.0
                    &&& ucinki@ + rem_pump.1 == cilj.1
                }),
            ensures
                self.wf(),
                player.wf(*fiz),
                fiz.wf(),
                fiz.sta() == old(fiz).sta(),
                fiz.din().len() == old(fiz).din().len(),
                fiz.dinamicni.free@ == old(fiz).dinamicni.free@,
                offset <= n,
                self.inbox@ == stari,
                crate::protocol::spec_decode(stari.skip(offset as int)) is Err,
                *player == (Player { position: player.position, ..*old(player) }),
                ({
                    let rem = crate::protocol::spec_razcep(
                        stari.skip(offset as int),
                        (stari.len() + 1 - offset) as nat,
                    );
                    let rem_pump = model_klient_pump(klientov_pogled(*self, *player, *fiz), rem.0);
                    &&& raz.0 == Seq::new(prejeta@.len(), |k: int| prejeta@[k]@) + rem.0
                    &&& raz.1 == offset + rem.1
                    &&& rem_pump.0 == cilj.0
                    &&& ucinki@ + rem_pump.1 == cilj.1
                }),
            decreases n - offset,
        {
            let odloceno = decode(&self.inbox, offset);
            match odloceno {
                Ok((m, next)) => {
                    proof {
                        crate::protocol::lemma_spec_decode_wf(stari.skip(offset as int));
                        crate::protocol::lemma_spec_decode_meje(stari.skip(offset as int));
                    }
                    let ghost prejeta_pred = prejeta@;
                    let ghost w_pred = klientov_pogled(*self, *player, *fiz);
                    let ghost u_pred = self.net_users@;
                    let ghost ucinki_pred = ucinki@;
                    prejeta.push(crate::network::kopiraj_sporocilo(&m));
                    let mut u1 = self.handle_msg(fiz, m, player);
                    ucinki.append(&mut u1);
                    proof {
                        match m@ {
                            MessageV::UserInfo(id, _, _) => {
                                lemma_najdi_ujema(u_pred, id);
                                lemma_najdi_uporabnika_znacilnost(u_pred, id);
                            },
                            MessageV::PlayerDied(_, napadalec) => {
                                lemma_najdi_ujema(u_pred, napadalec);
                                lemma_najdi_uporabnika_znacilnost(u_pred, napadalec);
                                let j = najdi_uporabnika(u_pred, napadalec);
                                if j >= 0 {
                                    assert(pogled_uporabnikov(u_pred)[j] == (
                                        u_pred[j].0,
                                        (u_pred[j].1.name)@,
                                        u_pred[j].1.kills,
                                    ));
                                }
                            },
                            MessageV::PlayerDisconnected(id) => {
                                lemma_najdi_ujema(u_pred, id);
                                lemma_najdi_uporabnika_znacilnost(u_pred, id);
                                let j = najdi_uporabnika(u_pred, id);
                                if j >= 0 {
                                    u_pred.remove_ensures(j);
                                    pogled_uporabnikov(u_pred).remove_ensures(j);
                                    assert forall|k: int|
                                        0 <= k < u_pred.len() - 1 implies pogled_uporabnikov(
                                        u_pred.remove(j),
                                    )[k] == pogled_uporabnikov(u_pred).remove(j)[k] by {
                                        if k < j {
                                            assert(u_pred.remove(j)[k] == u_pred[k]);
                                            assert(pogled_uporabnikov(u_pred).remove(j)[k]
                                                == pogled_uporabnikov(u_pred)[k]);
                                        } else {
                                            assert(u_pred.remove(j)[k] == u_pred[k + 1]);
                                            assert(pogled_uporabnikov(u_pred).remove(j)[k]
                                                == pogled_uporabnikov(u_pred)[k + 1]);
                                        }
                                    }
                                    assert(pogled_uporabnikov(u_pred.remove(j))
                                        =~= pogled_uporabnikov(u_pred).remove(j));
                                }
                            },
                            _ => {},
                        }
                        let korak = model_klient_sporocila(w_pred, m@);
                        assert(klientov_pogled(*self, *player, *fiz) =~= korak.0);
                        assert(ucinki@ =~= ucinki_pred + korak.1);
                        assert(stari.skip(offset as int).skip(next - offset) =~= stari.skip(
                            next as int,
                        ));
                        crate::protocol::lemma_razcep_gorivo(
                            stari.skip(next as int),
                            (stari.len() + 1 - offset - 1) as nat,
                            (stari.len() + 1 - next) as nat,
                        );
                        let rem_novi = crate::protocol::spec_razcep(
                            stari.skip(next as int),
                            (stari.len() + 1 - next) as nat,
                        );
                        assert(Seq::new(prejeta@.len(), |k: int| prejeta@[k]@) =~= Seq::new(
                            prejeta_pred.len(),
                            |k: int| prejeta_pred[k]@,
                        ) + seq![m@]);
                        assert((Seq::new(prejeta_pred.len(), |k: int| prejeta_pred[k]@)
                            + seq![m@]) + rem_novi.0 =~= Seq::new(
                            prejeta_pred.len(),
                            |k: int| prejeta_pred[k]@,
                        ) + (seq![m@] + rem_novi.0));
                        let rem_pred = crate::protocol::spec_razcep(
                            stari.skip(offset as int),
                            (stari.len() + 1 - offset) as nat,
                        );
                        assert(rem_pred.0 == seq![m@] + rem_novi.0);
                        assert((seq![m@] + rem_novi.0)[0] == m@);
                        assert((seq![m@] + rem_novi.0).skip(1) =~= rem_novi.0);
                        let naprej = model_klient_pump(korak.0, rem_novi.0);
                        assert(model_klient_pump(w_pred, rem_pred.0) == (
                            naprej.0,
                            korak.1 + naprej.1,
                        ));
                        assert((ucinki_pred + korak.1) + naprej.1 =~= ucinki_pred + (korak.1
                            + naprej.1));
                    }
                    offset = next;
                },
                Err(_) => {
                    break ;
                },
            }
        }
        let mut ostanek: Vec<u8> = Vec::new();
        let mut k: usize = offset;
        while k < n
            invariant
                n == self.inbox@.len(),
                offset <= k <= n,
                ostanek@ == self.inbox@.subrange(offset as int, k as int),
            decreases n - k,
        {
            let b = self.inbox[k];
            ostanek.push(b);
            proof {
                assert(ostanek@ =~= self.inbox@.subrange(offset as int, k + 1 as int));
            }
            k = k + 1;
        }
        self.inbox = ostanek;
        proof {
            assert(stari.subrange(offset as int, stari.len() as int) =~= stari.skip(
                offset as int,
            ));
            let rem = crate::protocol::spec_razcep(
                stari.skip(offset as int),
                (stari.len() + 1 - offset) as nat,
            );
            assert(rem.0 =~= Seq::<MessageV>::empty());
            assert(raz.0 =~= Seq::new(prejeta@.len(), |k: int| prejeta@[k]@));
            assert forall|k2: int| 0 <= k2 < raz.0.len() implies (#[trigger] prejeta@[k2])@
                == raz.0[k2] by {
                assert(raz.0[k2] == Seq::new(prejeta@.len(), |j: int| prejeta@[j]@)[k2]);
            }
            assert(ucinki@ + Seq::<Ucinek>::empty() =~= ucinki@);
            assert(klientov_pogled(*self, *player, *fiz) =~= klientov_pogled(
                *self,
                *player,
                *fiz,
            ));
        }
        (ucinki, prejeta)
    }

    /// Leaderboard rows: every known peer's name with its kill count,
    /// sorted largest first.
    pub fn get_leaderboard_data(&self) -> (r: Vec<(Vec<u8>, i32)>)
        ensures
            r@.len() == self.net_users@.len(),
            forall|i: int, j: int| 0 <= i < j < r@.len() ==> r@[i].1 >= r@[j].1,
            forall|x: (Seq<u8>, i32)|
                #[trigger] crate::network::st_pojavitev(crate::network::pogled_vrstic(r@), x)
                    == crate::network::st_pojavitev(
                    Seq::new(
                        self.net_users@.len(),
                        |k: int| ((self.net_users@[k].1.name)@, self.net_users@[k].1.kills),
                    ),
                    x,
                ),
    {
        let mut vrstice: Vec<(Vec<u8>, i32)> = Vec::new();
        let n = self.net_users.len();
        let mut i: usize = 0;
        while i < n
            invariant
                n == self.net_users@.len(),
                i <= n,
                vrstice@.len() == i,
                forall|k: int|
                    0 <= k < i ==> ((#[trigger] vrstice@[k]).0)@ == (self.net_users@[
                        k
                    ].1.name)@ && vrstice@[k].1 == self.net_users@[k].1.kills,
            decreases n - i,
        {
            vrstice.push((self.net_users[i].1.name.clone(), self.net_users[i].1.kills));
            i = i + 1;
        }
        proof {
            assert(crate::network::pogled_vrstic(vrstice@) =~= Seq::new(
                self.net_users@.len(),
                |k: int| ((self.net_users@[k].1.name)@, self.net_users@[k].1.kills),
            ));
        }
        crate::network::uredi_po_ubojih(vrstice)
    }
}

} // verus!
