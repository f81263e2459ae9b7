//! Server authority and client reconciliation, as pure state machines.
//!
//! The unverified shell owns the sockets: it accepts connections, reads
//! available bytes into per-connection inboxes, hands events to these
//! functions and writes out the [`Message`]s they return. Every decision —
//! who is hit, who dies, who respawns where, what is broadcast — is made
//! here.

use vstd::prelude::*;
use crate::collision::{AABB, COORD_LIMIT, DinamicenAABBRef, LAYER_PLAYER, Objekt, Physics, iclamp};
use crate::protocol::{HOST_ID, Message, MessageV, NEZNAN_ID, State, decode};
use crate::player::{Player, calc_sword_hitbox, spec_calc_sword_hitbox};
use rand::Rng;

verus! {

/// How long a dead player waits before respawning, in milliseconds.
pub const RESPAWN_TIME_MS: i32 = 3000;

/// Falling past this y (in milli-units) kills the player.
pub const FALLOFF_Y: i32 = 500000;

/// Health deducted by one sword hit.
pub const UDAREC: i32 = 10;

/// A message and who it goes to: every peer, or the one peer with this id.
#[derive(Debug, Clone)]
pub enum Odhodni {
    Vsem(Message),
    Klientu(u32, Message),
}

/// Cosmetic side effects for the shell to render: a particle burst at a
/// point, and pop-up notices identified by peer ids (the shell resolves
/// names through the roster).
#[derive(Clone, Copy, Debug, PartialEq, Eq, Structural)]
pub enum Ucinek {
    Particles(i32, i32),
    Ubil(u32, u32),
    SamSebe(u32),
    Pridruzil(u32),
    Zapustil(u32),
}

/// Which role this process plays in the session.
pub enum NetInterface {
    Server(Server),
    Client(crate::client::Client),
}

/// Canonical per-connection state the server keeps for one peer.
pub struct ServerConnection {
    pub state: State,
    pub user_name: Vec<u8>,
    pub aabb_ref: DinamicenAABBRef,
    pub health: i32,
    pub respawn_timer: i32,
    pub kills: i32,
    pub inbox: Vec<u8>,
}

/// The authoritative host: canonical connection states plus the host's own
/// player bookkeeping.
pub struct Server {
    pub clients: Vec<ServerConnection>,
    pub naslednji_id: u32,
    pub user_name: Vec<u8>,
    pub health: i32,
    pub respawn_timer: i32,
    pub kills: i32,
    pub nov_leaderboard: bool,
}

/// The combat-relevant view of one connection.
pub struct KlientV {
    pub id: u32,
    pub health: i32,
    pub respawn_timer: i32,
    pub kills: i32,
}

/// The per-connection views, in connection order.
pub open spec fn pogledi(s: Server) -> Seq<KlientV> {
    Seq::new(s.clients@.len(), |k: int| s.clients@[k].pogled())
}

/// The combat-relevant view of the whole server.
#[verifier::ext_equal]
pub struct StrezV {
    pub health: i32,
    pub respawn_timer: i32,
    pub kills: i32,
    pub nov_leaderboard: bool,
    pub klienti: Seq<KlientV>,
}

impl ServerConnection {
    pub open spec fn cwf(&self) -> bool {
        &&& 0 <= self.health <= 100
        &&& -1000000 <= self.respawn_timer <= 10000
        &&& (self.health <= 0 ==> self.respawn_timer > 0)
        &&& 0 <= self.kills
        &&& self.user_name@.len() < 0x1_0000_0000
        &&& self.state.id != HOST_ID
        &&& self.state.id != NEZNAN_ID
    }

    pub open spec fn pogled(&self) -> KlientV {
        KlientV {
            id: self.state.id,
            health: self.health,
            respawn_timer: self.respawn_timer,
            kills: self.kills,
        }
    }
}

impl Server {
    /// Well-formedness of the server's own fields.
    pub open spec fn wf_sam(&self) -> bool {
        &&& 0 <= self.health <= 100
        &&& -1000000 <= self.respawn_timer <= 10000
        &&& (self.health <= 0 ==> self.respawn_timer > 0)
        &&& 0 <= self.kills
        &&& self.user_name@.len() < 0x1_0000_0000
        &&& 1 <= self.naslednji_id
        &&& forall|i: int| 0 <= i < self.clients@.len() ==> (#[trigger] self.clients@[i]).cwf()
        &&& forall|i: int|
            0 <= i < self.clients@.len() ==> (#[trigger] self.clients@[i]).state.id
                < self.naslednji_id
        &&& forall|i: int, j: int|
            0 <= i < j < self.clients@.len() ==> self.clients@[i].state.id
                != self.clients@[j].state.id
    }

    /// Well-formedness against the simulation context: every connection's
    /// collider handle is live and no two share a slot.
    pub open spec fn wf(&self, fiz: Physics) -> bool {
        &&& self.wf_sam()
        &&& fiz.wf()
        &&& forall|i: int|
            0 <= i < self.clients@.len() ==> fiz.veljaven_din(
                (#[trigger] self.clients@[i]).aabb_ref,
            )
        &&& forall|i: int, j: int|
            0 <= i < j < self.clients@.len() ==> self.clients@[i].aabb_ref.idx()
                != self.clients@[j].aabb_ref.idx()
    }

    pub open spec fn pogled(&self) -> StrezV {
        StrezV {
            health: self.health,
            respawn_timer: self.respawn_timer,
            kills: self.kills,
            nov_leaderboard: self.nov_leaderboard,
            klienti: pogledi(*self),
        }
    }

    pub fn new(user_name: Vec<u8>) -> (r: Server)
        requires
            user_name@.len() < 0x1_0000_0000,
        ensures
            r.clients@.len() == 0,
            r.naslednji_id == 1,
            r.user_name@ == user_name@,
            r.health == 100,
            r.respawn_timer == 0,
            r.kills == 0,
            r.nov_leaderboard,
            r.wf_sam(),
    {
        Server {
            clients: Vec::new(),
            naslednji_id: 1,
            user_name,
            health: 100,
            respawn_timer: 0,
            kills: 0,
            nov_leaderboard: true,
        }
    }

    /// The greeting a freshly accepted peer receives: its assigned id, then
    /// the host's roster entry, then one entry per already-connected peer.
    pub fn on_start_conn(&self) -> (msgs: Vec<Message>)
        requires
            self.wf_sam(),
        ensures
            msgs@.len() == 2 + self.clients@.len(),
            msgs@[0]@ == MessageV::DodeljenId(self.naslednji_id),
            msgs@[1]@ == MessageV::UserInfo(HOST_ID, self.user_name@, self.kills),
            forall|k: int|
                0 <= k < self.clients@.len() ==> (#[trigger] msgs@[2 + k])@ == MessageV::UserInfo(
                    self.clients@[k].state.id,
                    self.clients@[k].user_name@,
                    self.clients@[k].kills,
                ),
    {
        let mut msgs: Vec<Message> = Vec::new();
        msgs.push(Message::DodeljenId(self.naslednji_id));
        msgs.push(Message::UserInfo(HOST_ID, self.user_name.clone(), self.kills));
        let n = self.clients.len();
        let mut k: usize = 0;
        while k < n
            invariant
                n == self.clients@.len(),
                k <= n,
                self.wf_sam(),
                msgs@.len() == 2 + k,
                msgs@[0]@ == MessageV::DodeljenId(self.naslednji_id),
                msgs@[1]@ == MessageV::UserInfo(HOST_ID, self.user_name@, self.kills),
                forall|j: int|
                    0 <= j < k ==> (#[trigger] msgs@[2 + j])@ == MessageV::UserInfo(
                        self.clients@[j].state.id,
                        self.clients@[j].user_name@,
                        self.clients@[j].kills,
                    ),
            decreases n - k,
        {
            let c = &self.clients[k];
            msgs.push(Message::UserInfo(c.state.id, c.user_name.clone(), c.kills));
            k = k + 1;
        }
        msgs
    }

    /// Registers one freshly accepted connection: assigns it the next
    /// sequential id, registers a fresh player-layer collider for it, and
    /// returns the greeting to send to that peer.
    pub fn listen(&mut self, fiz: &mut Physics) -> (msgs: Vec<Message>)
        requires
            old(self).wf(*old(fiz)),
            old(self).naslednji_id < NEZNAN_ID,
        ensures
            final(self).wf(*final(fiz)),
            msgs@.len() == 2 + old(self).clients@.len(),
            msgs@[0]@ == MessageV::DodeljenId(old(self).naslednji_id),
            msgs@[1]@ == MessageV::UserInfo(HOST_ID, old(self).user_name@, old(self).kills),
            forall|k: int|
                0 <= k < old(self).clients@.len() ==> (#[trigger] msgs@[2 + k])@
                    == MessageV::UserInfo(
                    old(self).clients@[k].state.id,
                    old(self).clients@[k].user_name@,
                    old(self).clients@[k].kills,
                ),
            final(self).clients@.len() == old(self).clients@.len() + 1,
            forall|i: int|
                0 <= i < old(self).clients@.len() ==> final(self).clients@[i] == old(
                    self,
                ).clients@[i],
            ({
                let nov = final(self).clients@.last();
                &&& nov.state.id == old(self).naslednji_id
                &&& nov.state == (State { id: old(self).naslednji_id, ..State {
                    id: 0,
                    position: (0, 0),
                    rotation: (0, 0),
                    anim_frame: (0, 0),
                    attack_time: 0,
                    razdalja_meca: 0,
                } })
                &&& nov.health == 100
                &&& nov.respawn_timer == 0
                &&& nov.kills == 0
                &&& nov.user_name@.len() == 0
                &&& nov.inbox@.len() == 0
            }),
            final(self).naslednji_id == old(self).naslednji_id + 1,
            final(self).nov_leaderboard,
            final(self).user_name == old(self).user_name,
            final(self).health == old(self).health,
            final(self).respawn_timer == old(self).respawn_timer,
            final(self).kills == old(self).kills,
    {
        let msgs = self.on_start_conn();
        let mut st = State::prazen();
        st.id = self.naslednji_id;
        proof {
            crate::collision::lemma_plasti_en_bit();
        }
        let aabb_ref = fiz.dodaj_dinamicen_obj(
            AABB { x: 0, y: 0, w: 16000, h: 28000 },
            LAYER_PLAYER,
            0,
            self.naslednji_id,
        );
        proof {
            assert forall|i: int|
                0 <= i < self.clients@.len() implies fiz.veljaven_din(
                (#[trigger] self.clients@[i]).aabb_ref,
            ) by {
                assert(old(fiz).veljaven_din(self.clients@[i].aabb_ref));
            }
        }
        let ghost nov_idx = aabb_ref.idx();
        self.clients.push(
            ServerConnection {
                state: st,
                user_name: Vec::new(),
                aabb_ref,
                health: 100,
                respawn_timer: 0,
                kills: 0,
                inbox: Vec::new(),
            },
        );
        self.naslednji_id = self.naslednji_id + 1;
        self.nov_leaderboard = true;
        proof {
            assert forall|i: int, j: int|
                0 <= i < j < self.clients@.len() implies self.clients@[i].aabb_ref.idx()
                != self.clients@[j].aabb_ref.idx() by {
                if j == self.clients@.len() - 1 {
                    assert(old(fiz).veljaven_din(self.clients@[i].aabb_ref));
                    assert(old(fiz).din()[self.clients@[i].aabb_ref.idx()] is Some);
                }
            }
        }
        msgs
    }

    /// Display name of a peer: the host's own name for the reserved id,
    /// a connected peer's reported name, or a placeholder.
    pub fn najdi_ime_za_id(&self, id: u32) -> (r: Vec<u8>)
        ensures
            r@ == spec_ime_za_id(*self, id),
    {
        if id == HOST_ID {
            return self.user_name.clone();
        }
        let n = self.clients.len();
        let mut i: usize = 0;
        while i < n
            invariant
                n == self.clients@.len(),
                i <= n,
                id != HOST_ID,
                forall|k: int| 0 <= k < i ==> (#[trigger] self.clients@[k]).state.id != id,
            decreases n - i,
        {
            if self.clients[i].state.id == id {
                proof {
                    let kl = pogledi(*self);
                    lemma_najdi_id_znacilnost(kl, id);
                    let j = najdi_id(kl, id);
                    assert(kl[i as int] == self.clients@[i as int].pogled());
                    if j == -1 {
                        assert(kl[i as int].id != id);
                    } else if j < i as int {
                        assert(kl[j] == self.clients@[j].pogled());
                    } else if j > i as int {
                        assert(kl[i as int].id != id);
                    }
                    assert(j == i as int);
                }
                return self.clients[i].user_name.clone();
            }
            i = i + 1;
        }
        proof {
            let kl = pogledi(*self);
            lemma_najdi_id_znacilnost(kl, id);
            let j = najdi_id(kl, id);
            if j >= 0 {
                assert(kl[j] == self.clients@[j].pogled());
            }
            assert(j == -1);
        }
        privzeto_ime()
    }
}

/// A field-for-field copy of a message, with its view preserved.
pub fn kopiraj_sporocilo(m: &Message) -> (r: Message)
    ensures
        r@ == m@,
{
    match m {
        Message::DodeljenId(id) => Message::DodeljenId(*id),
        Message::UserInfo(id, ime, kills) => Message::UserInfo(*id, ime.clone(), *kills),
        Message::PlayerState(s) => Message::PlayerState(*s),
        Message::AllPlayersState(ss) => {
            let mut kopija: Vec<State> = Vec::new();
            let mut i: usize = 0;
            while i < ss.len()
                invariant
                    i <= ss@.len(),
                    kopija@ == ss@.take(i as int),
                decreases ss@.len() - i,
            {
                kopija.push(ss[i]);
                proof {
                    assert(kopija@ =~= ss@.take(i + 1 as int));
                }
                i = i + 1;
            }
            proof {
                assert(ss@.take(ss@.len() as int) =~= ss@);
            }
            Message::AllPlayersState(kopija)
        },
        Message::Attack(h) => Message::Attack(*h),
        Message::Respawn(x, y) => Message::Respawn(*x, *y),
        Message::HitParticles(x, y) => Message::HitParticles(*x, *y),
        Message::PlayerDied(id, napadalec) => Message::PlayerDied(*id, *napadalec),
        Message::PlayerDisconnected(id) => Message::PlayerDisconnected(*id),
    }
}

/// The placeholder name shown for an unknown peer id.
pub open spec fn spec_privzeto_ime() -> Seq<u8> {
    seq![112u8, 108u8, 97u8, 121u8, 101u8, 114u8]
}

fn privzeto_ime() -> (r: Vec<u8>)
    ensures
        r@ == spec_privzeto_ime(),
{
    let mut r: Vec<u8> = Vec::new();
    r.push(112);
    r.push(108);
    r.push(97);
    r.push(121);
    r.push(101);
    r.push(114);
    proof {
        assert(r@ =~= spec_privzeto_ime());
    }
    r
}

/// First index whose view carries this id, or -1.
pub open spec fn najdi_id(kl: Seq<KlientV>, id: u32) -> int
    decreases kl.len(),
{
    if kl.len() == 0 {
        -1
    } else if kl[0].id == id {
        0
    } else {
        let r = najdi_id(kl.skip(1), id);
        if r < 0 {
            -1
        } else {
            r + 1
        }
    }
}

/// First index whose view carries this id and is alive, or -1.
pub open spec fn najdi_zivega(kl: Seq<KlientV>, id: u32) -> int
    decreases kl.len(),
{
    if kl.len() == 0 {
        -1
    } else if kl[0].id == id && kl[0].health > 0 {
        0
    } else {
        let r = najdi_zivega(kl.skip(1), id);
        if r < 0 {
            -1
        } else {
            r + 1
        }
    }
}

/// `najdi_id` really is the first match: a miss means no index matches, a
/// hit means the index matches and nothing earlier does.
pub proof fn lemma_najdi_id_znacilnost(kl: Seq<KlientV>, id: u32)
    ensures
        najdi_id(kl, id) == -1 ==> forall|k: int| 0 <= k < kl.len() ==> (#[trigger] kl[k]).id != id,
        najdi_id(kl, id) >= 0 ==> 0 <= najdi_id(kl, id) < kl.len() && kl[najdi_id(kl, id)].id == id
            && forall|k: int| 0 <= k < najdi_id(kl, id) ==> (#[trigger] kl[k]).id != id,
    decreases kl.len(),
{
    if kl.len() > 0 && !(kl[0].id == id) {
        lemma_najdi_id_znacilnost(kl.skip(1), id);
        let r = najdi_id(kl.skip(1), id);
        if r == -1 {
            assert forall|k: int| 0 <= k < kl.len() implies (#[trigger] kl[k]).id != id by {
                if k > 0 {
                    assert(kl.skip(1)[k - 1] == kl[k]);
                }
            }
        } else {
            assert(kl[r + 1] == kl.skip(1)[r]);
            assert forall|k: int| 0 <= k < r + 1 implies (#[trigger] kl[k]).id != id by {
                if k > 0 {
                    assert(kl.skip(1)[k - 1] == kl[k]);
                }
            }
        }
    }
}

/// `najdi_zivega` really is the first live match.
pub proof fn lemma_najdi_zivega_znacilnost(kl: Seq<KlientV>, id: u32)
    ensures
        najdi_zivega(kl, id) == -1 ==> forall|k: int|
            0 <= k < kl.len() ==> !((#[trigger] kl[k]).id == id && kl[k].health > 0),
        najdi_zivega(kl, id) >= 0 ==> 0 <= najdi_zivega(kl, id) < kl.len() && kl[najdi_zivega(
            kl,
            id,
        )].id == id && kl[najdi_zivega(kl, id)].health > 0 && forall|k: int|
            0 <= k < najdi_zivega(kl, id) ==> !((#[trigger] kl[k]).id == id && kl[k].health > 0),
    decreases kl.len(),
{
    if kl.len() > 0 && !(kl[0].id == id && kl[0].health > 0) {
        lemma_najdi_zivega_znacilnost(kl.skip(1), id);
        let r = najdi_zivega(kl.skip(1), id);
        if r == -1 {
            assert forall|k: int|
                0 <= k < kl.len() implies !((#[trigger] kl[k]).id == id && kl[k].health > 0) by {
                if k > 0 {
                    assert(kl.skip(1)[k - 1] == kl[k]);
                }
            }
        } else {
            assert(kl[r + 1] == kl.skip(1)[r]);
            assert forall|k: int|
                0 <= k < r + 1 implies !((#[trigger] kl[k]).id == id && kl[k].health > 0) by {
                if k > 0 {
                    assert(kl.skip(1)[k - 1] == kl[k]);
                }
            }
        }
    }
}

/// A kill count one higher, saturating at the top of the range.
pub open spec fn spec_inc(k: i32) -> i32 {
    if k < i32::MAX {
        (k + 1) as i32
    } else {
        k
    }
}

/// A world coordinate squeezed into the wire's 32-bit range.
pub open spec fn spec_v_i32(v: int) -> i32 {
    iclamp(v, i32::MIN as int, i32::MAX as int) as i32
}

fn v_i32(v: i64) -> (r: i32)
    ensures
        r == spec_v_i32(v as int),
{
    if v < i32::MIN as i64 {
        i32::MIN
    } else if v > i32::MAX as i64 {
        i32::MAX
    } else {
        v as i32
    }
}

/// Credits a kill: the attacker's counter (the host's or the matching
/// connection's) grows by one and the leaderboard is marked dirty.
pub open spec fn model_pripisi(v: StrezV, napadalec_id: u32) -> StrezV {
    let v1 = StrezV { nov_leaderboard: true, ..v };
    if napadalec_id == HOST_ID {
        StrezV { kills: spec_inc(v1.kills), ..v1 }
    } else {
        let j = najdi_id(v1.klienti, napadalec_id);
        if j >= 0 {
            StrezV {
                klienti: v1.klienti.update(
                    j,
                    KlientV { kills: spec_inc(v1.klienti[j].kills), ..v1.klienti[j] },
                ),
                ..v1
            }
        } else {
            v1
        }
    }
}

/// One candidate from the sword's area query, resolved: the attacker never
/// hits itself; a candidate counts only if the ray from the weapon origin
/// along the facing direction reaches its box; a live victim loses
/// [`UDAREC`] health (told its new health if it is a remote peer), a
/// particle burst is broadcast, and a victim dropping to zero starts its
/// respawn timer, is announced with its attacker, and credits the kill.
pub open spec fn model_zadetek(
    v: StrezV,
    zadet: (u32, AABB),
    napadalec_id: u32,
    pozicija: (i64, i64),
    smer: (i64, i64),
) -> (StrezV, Seq<Odhodni>, Seq<Ucinek>) {
    let id = zadet.0;
    if id == napadalec_id {
        (v, Seq::empty(), Seq::empty())
    } else {
        match zadet.1.spec_ray_hit(pozicija, smer) {
            None => (v, Seq::empty(), Seq::empty()),
            Some(tocka) => {
                let px = spec_v_i32(tocka.0 as int);
                let py = spec_v_i32(tocka.1 as int);
                if id == HOST_ID {
                    if v.health > 0 {
                        let nh = v.health - UDAREC;
                        let umrl = nh <= 0;
                        let v1 = StrezV {
                            health: if umrl {
                                0
                            } else {
                                nh as i32
                            },
                            respawn_timer: if umrl {
                                RESPAWN_TIME_MS
                            } else {
                                v.respawn_timer
                            },
                            ..v
                        };
                        if umrl {
                            (
                                model_pripisi(v1, napadalec_id),
                                seq![
                                    Odhodni::Vsem(Message::HitParticles(px, py)),
                                    Odhodni::Vsem(Message::PlayerDied(HOST_ID, napadalec_id)),
                                ],
                                seq![
                                    Ucinek::Particles(px, py),
                                    Ucinek::Ubil(napadalec_id, HOST_ID),
                                ],
                            )
                        } else {
                            (
                                v1,
                                seq![Odhodni::Vsem(Message::HitParticles(px, py))],
                                seq![Ucinek::Particles(px, py)],
                            )
                        }
                    } else {
                        (v, Seq::empty(), Seq::empty())
                    }
                } else {
                    let j = najdi_zivega(v.klienti, id);
                    if j < 0 {
                        (v, Seq::empty(), Seq::empty())
                    } else {
                        let k = v.klienti[j];
                        let nh = k.health - UDAREC;
                        let umrl = nh <= 0;
                        let k2 = KlientV {
                            health: if umrl {
                                0
                            } else {
                                nh as i32
                            },
                            respawn_timer: if umrl {
                                RESPAWN_TIME_MS
                            } else {
                                k.respawn_timer
                            },
                            ..k
                        };
                        let v1 = StrezV { klienti: v.klienti.update(j, k2), ..v };
                        if umrl {
                            (
                                model_pripisi(v1, napadalec_id),
                                seq![
                                    Odhodni::Klientu(id, Message::Attack(k2.health)),
                                    Odhodni::Vsem(Message::HitParticles(px, py)),
                                    Odhodni::Vsem(Message::PlayerDied(id, napadalec_id)),
                                ],
                                seq![
                                    Ucinek::Particles(px, py),
                                    Ucinek::Ubil(napadalec_id, id),
                                ],
                            )
                        } else {
                            (
                                v1,
                                seq![
                                    Odhodni::Klientu(id, Message::Attack(k2.health)),
                                    Odhodni::Vsem(Message::HitParticles(px, py)),
                                ],
                                seq![Ucinek::Particles(px, py)],
                            )
                        }
                    }
                }
            },
        }
    }
}

/// All candidates of one swing, in query order, each applied to the state
/// the previous ones left behind.
pub open spec fn model_napad(
    v: StrezV,
    zadetki: Seq<(u32, AABB)>,
    napadalec_id: u32,
    pozicija: (i64, i64),
    smer: (i64, i64),
) -> (StrezV, Seq<Odhodni>, Seq<Ucinek>)
    decreases zadetki.len(),
{
    if zadetki.len() == 0 {
        (v, Seq::empty(), Seq::empty())
    } else {
        let prvi = model_zadetek(v, zadetki[0], napadalec_id, pozicija, smer);
        let naprej = model_napad(prvi.0, zadetki.skip(1), napadalec_id, pozicija, smer);
        (naprej.0, prvi.1 + naprej.1, prvi.2 + naprej.2)
    }
}

/// Mathematical value of a directed outbound message.
pub enum OdhodniV {
    Vsem(MessageV),
    Klientu(u32, MessageV),
}

pub open spec fn odhodni_pogled(o: Odhodni) -> OdhodniV {
    match o {
        Odhodni::Vsem(m) => OdhodniV::Vsem(m@),
        Odhodni::Klientu(id, m) => OdhodniV::Klientu(id, m@),
    }
}

pub open spec fn odhodni_pogledi(s: Seq<Odhodni>) -> Seq<OdhodniV> {
    Seq::new(s.len(), |k: int| odhodni_pogled(s[k]))
}

/// Everything one inbound message can touch on the server's side, as one
/// mathematical value: the combat view, the canonical states and names,
/// the connections' collider slots, and the dynamic arena.
#[verifier::ext_equal]
pub struct StreznikPogledV {
    pub strez: StrezV,
    pub stanja: Seq<State>,
    pub imena: Seq<Seq<u8>>,
    pub refi: Seq<int>,
    pub din: Seq<Option<Objekt>>,
}

pub open spec fn streznikov_pogled(s: Server, fiz: Physics) -> StreznikPogledV {
    StreznikPogledV {
        strez: s.pogled(),
        stanja: Seq::new(s.clients@.len(), |k: int| s.clients@[k].state),
        imena: Seq::new(s.clients@.len(), |k: int| (s.clients@[k].user_name)@),
        refi: Seq::new(s.clients@.len(), |k: int| s.clients@[k].aabb_ref.idx()),
        din: fiz.din(),
    }
}

/// What one inbound message from connection `conn_i` does on the server:
/// the authority rules of `handle_msg`, as a function.
pub open spec fn model_streznik_sporocila(w: StreznikPogledV, conn_i: int, m: MessageV) -> (
    StreznikPogledV,
    Seq<OdhodniV>,
    Seq<Ucinek>,
) {
    match m {
        MessageV::PlayerState(st) => {
            let nov_st = State { id: w.stanja[conn_i].id, ..st };
            let rid = w.refi[conn_i];
            let din1 = w.din.update(
                rid,
                Some(
                    Objekt {
                        aabb: AABB {
                            x: st.position.0 as i64,
                            y: st.position.1 as i64,
                            ..(w.din[rid]->0).aabb
                        },
                        ..w.din[rid]->0
                    },
                ),
            );
            let w1 = StreznikPogledV {
                stanja: w.stanja.update(conn_i, nov_st),
                din: din1,
                ..w
            };
            if st.attack_time == 0 {
                let hitbox = spec_calc_sword_hitbox(
                    st.position,
                    st.attack_time,
                    st.razdalja_meca,
                    st.rotation,
                );
                let found = crate::collision::spec_area_query(din1, hitbox, LAYER_PLAYER);
                let mn = model_napad(
                    w.strez,
                    found,
                    nov_st.id,
                    (
                        (st.position.0 as i64 + 8000) as i64,
                        (st.position.1 as i64 + 12000) as i64,
                    ),
                    (st.rotation.0 as i64, st.rotation.1 as i64),
                );
                (StreznikPogledV { strez: mn.0, ..w1 }, odhodni_pogledi(mn.1), mn.2)
            } else {
                (w1, Seq::empty(), Seq::empty())
            }
        },
        MessageV::UserInfo(_novi_id, ime, _kills) => (
            StreznikPogledV { imena: w.imena.update(conn_i, ime), ..w },
            seq![
                OdhodniV::Vsem(
                    MessageV::UserInfo(
                        w.stanja[conn_i].id,
                        ime,
                        w.strez.klienti[conn_i].kills,
                    ),
                ),
            ],
            seq![Ucinek::Pridruzil(w.stanja[conn_i].id)],
        ),
        _ => (w, Seq::empty(), Seq::empty()),
    }
}

/// A whole drained inbox of one connection: each message applied to the
/// state the previous ones left, outbound messages and effects in order.
pub open spec fn model_streznik_pump(w: StreznikPogledV, conn_i: int, ms: Seq<MessageV>) -> (
    StreznikPogledV,
    Seq<OdhodniV>,
    Seq<Ucinek>,
)
    decreases ms.len(),
{
    if ms.len() == 0 {
        (w, Seq::empty(), Seq::empty())
    } else {
        let korak = model_streznik_sporocila(w, conn_i, ms[0]);
        let naprej = model_streznik_pump(korak.0, conn_i, ms.skip(1));
        (naprej.0, korak.1 + naprej.1, korak.2 + naprej.2)
    }
}

/// Everything outside the combat view is untouched: same connections in the
/// same order with the same states, names, colliders and inboxes.
pub open spec fn ogrodje_enako(a: Server, b: Server) -> bool {
    &&& b.clients@.len() == a.clients@.len()
    &&& forall|i: int|
        0 <= i < a.clients@.len() ==> (#[trigger] b.clients@[i]).state == a.clients@[i].state
            && b.clients@[i].user_name == a.clients@[i].user_name && b.clients@[i].aabb_ref
            == a.clients@[i].aabb_ref && b.clients@[i].inbox == a.clients@[i].inbox
    &&& b.naslednji_id == a.naslednji_id
    &&& b.user_name == a.user_name
}

impl Server {
    fn najdi_zivega_exec(&self, id: u32) -> (r: Option<usize>)
        ensures
            najdi_zivega(pogledi(*self), id) < 0 <==> r is None,
            r matches Some(j) ==> j as int == najdi_zivega(pogledi(*self), id) && (j as int)
                < self.clients@.len() && self.clients@[j as int].health > 0 && self.clients@[
                j as int
            ].state.id == id,
    {
        proof {
            lemma_najdi_zivega_znacilnost(pogledi(*self), id);
            let f = najdi_zivega(pogledi(*self), id);
            if f >= 0 {
                assert(pogledi(*self)[f] == self.clients@[f].pogled());
            }
        }
        let n = self.clients.len();
        let mut i: usize = 0;
        while i < n
            invariant
                n == self.clients@.len(),
                i <= n,
                forall|k: int|
                    0 <= k < i ==> !((#[trigger] self.clients@[k]).state.id == id
                        && self.clients@[k].health > 0),
            decreases n - i,
        {
            if self.clients[i].state.id == id && self.clients[i].health > 0 {
                proof {
                    let kl = pogledi(*self);
                    lemma_najdi_zivega_znacilnost(kl, id);
                    let f = najdi_zivega(kl, id);
                    assert(kl[i as int] == self.clients@[i as int].pogled());
                    if f < i as int {
                        assert(kl[f] == self.clients@[f].pogled());
                    }
                    assert(f == i as int);
                }
                return Some(i);
            }
            i = i + 1;
        }
        proof {
            let kl = pogledi(*self);
            lemma_najdi_zivega_znacilnost(kl, id);
            let f = najdi_zivega(kl, id);
            if f >= 0 {
                assert(kl[f] == self.clients@[f].pogled());
            }
            assert(f == -1);
        }
        None
    }

    fn najdi_id_exec(&self, id: u32) -> (r: Option<usize>)
        ensures
            najdi_id(pogledi(*self), id) < 0 <==> r is None,
            r matches Some(j) ==> j as int == najdi_id(pogledi(*self), id) && (j as int)
                < self.clients@.len() && self.clients@[j as int].state.id == id,
    {
        proof {
            lemma_najdi_id_znacilnost(pogledi(*self), id);
            let f = najdi_id(pogledi(*self), id);
            if f >= 0 {
                assert(pogledi(*self)[f] == self.clients@[f].pogled());
            }
        }
        let n = self.clients.len();
        let mut i: usize = 0;
        while i < n
            invariant
                n == self.clients@.len(),
                i <= n,
                forall|k: int| 0 <= k < i ==> (#[trigger] self.clients@[k]).state.id != id,
            decreases n - i,
        {
            if self.clients[i].state.id == id {
                proof {
                    let kl = pogledi(*self);
                    lemma_najdi_id_znacilnost(kl, id);
                    let f = najdi_id(kl, id);
                    assert(kl[i as int] == self.clients@[i as int].pogled());
                    if f < i as int && f >= 0 {
                        assert(kl[f] == self.clients@[f].pogled());
                    }
                    assert(f == i as int);
                }
                return Some(i);
            }
            i = i + 1;
        }
        proof {
            let kl = pogledi(*self);
            lemma_najdi_id_znacilnost(kl, id);
            let f = najdi_id(kl, id);
            if f >= 0 {
                assert(kl[f] == self.clients@[f].pogled());
            }
            assert(f == -1);
        }
        None
    }

    fn pripisi_ubojstvo(&mut self, napadalec_id: u32)
        requires
            old(self).wf_sam(),
        ensures
            final(self).wf_sam(),
            final(self).pogled() == model_pripisi(old(self).pogled(), napadalec_id),
            ogrodje_enako(*old(self), *final(self)),
    {
        self.nov_leaderboard = true;
        proof {
            assert(pogledi(*self) =~= pogledi(*old(self)));
        }
        if napadalec_id == HOST_ID {
            if self.kills < i32::MAX {
                self.kills = self.kills + 1;
            }
            proof {
                assert(pogledi(*self) =~= model_pripisi(old(self).pogled(), napadalec_id).klienti);
            }
        } else {
            match self.najdi_id_exec(napadalec_id) {
                Some(j) => {
                    let nov_kills = if self.clients[j].kills < i32::MAX {
                        self.clients[j].kills + 1
                    } else {
                        self.clients[j].kills
                    };
                    let c = &mut self.clients[j];
                    c.kills = nov_kills;
                    proof {
                        let stari = pogledi(*old(self));
                        let m = model_pripisi(old(self).pogled(), napadalec_id);
                        assert(stari[j as int] == old(self).clients@[j as int].pogled());
                        assert(self.clients@[j as int].kills == nov_kills);
                        assert(self.clients@[j as int].state == old(self).clients@[
                            j as int
                        ].state);
                        assert(self.clients@.len() == old(self).clients@.len());
                        assert(najdi_id(stari, napadalec_id) == j as int);
                        assert(m.klienti == stari.update(
                            j as int,
                            KlientV { kills: spec_inc(stari[j as int].kills), ..stari[j as int] },
                        ));
                        assert forall|k: int|
                            0 <= k < pogledi(*self).len() implies pogledi(*self)[k]
                            == m.klienti[k] by {
                            assert(pogledi(*self)[k] == self.clients@[k].pogled());
                            assert(stari[k] == old(self).clients@[k].pogled());
                        }
                        assert(pogledi(*self) =~= m.klienti);
                    }
                },
                None => {
                    proof {
                        assert(pogledi(*self) =~= model_pripisi(
                            old(self).pogled(),
                            napadalec_id,
                        ).klienti);
                    }
                },
            }
        }
    }

    /// Applies one swing's area-query candidates: damage, death, respawn
    /// timers, kill credit, and the broadcasts they cause, in query order.
    #[verifier::rlimit(100)]
    pub fn handle_attack(
        &mut self,
        hit_list: &Vec<(u32, AABB)>,
        napadalec_id: u32,
        pozicija: (i64, i64),
        smer: (i64, i64),
    ) -> (r: (Vec<Odhodni>, Vec<Ucinek>))
        requires
            old(self).wf_sam(),
            forall|k: int| 0 <= k < hit_list@.len() ==> (#[trigger] hit_list@[k]).1.wf(),
            -COORD_LIMIT <= pozicija.0 <= COORD_LIMIT,
            -COORD_LIMIT <= pozicija.1 <= COORD_LIMIT,
            -COORD_LIMIT <= smer.0 <= COORD_LIMIT,
            -COORD_LIMIT <= smer.1 <= COORD_LIMIT,
        ensures
            final(self).wf_sam(),
            ogrodje_enako(*old(self), *final(self)),
            ({
                let m = model_napad(old(self).pogled(), hit_list@, napadalec_id, pozicija, smer);
                final(self).pogled() == m.0 && r.0@ == m.1 && r.1@ == m.2
            }),
    {
        let ghost cilj = model_napad(old(self).pogled(), hit_list@, napadalec_id, pozicija, smer);
        let mut msgs: Vec<Odhodni> = Vec::new();
        let mut ucinki: Vec<Ucinek> = Vec::new();
        proof {
            assert(hit_list@.skip(0) =~= hit_list@);
            assert(Seq::<Odhodni>::empty() + cilj.1 =~= cilj.1);
            assert(Seq::<Ucinek>::empty() + cilj.2 =~= cilj.2);
        }
        let n = hit_list.len();
        let mut i: usize = 0;
        while i < n
            invariant
                self.wf_sam(),
                ogrodje_enako(*old(self), *self),
                n == hit_list@.len(),
                i <= n,
                forall|k: int| 0 <= k < hit_list@.len() ==> (#[trigger] hit_list@[k]).1.wf(),
                -COORD_LIMIT <= pozicija.0 <= COORD_LIMIT,
                -COORD_LIMIT <= pozicija.1 <= COORD_LIMIT,
                -COORD_LIMIT <= smer.0 <= COORD_LIMIT,
                -COORD_LIMIT <= smer.1 <= COORD_LIMIT,
                cilj == model_napad(
                    old(self).pogled(),
                    hit_list@,
                    napadalec_id,
                    pozicija,
                    smer,
                ),
                ({
                    let rem = model_napad(
                        self.pogled(),
                        hit_list@.skip(i as int),
                        napadalec_id,
                        pozicija,
                        smer,
                    );
                    rem.0 == cilj.0 && msgs@ + rem.1 == cilj.1 && ucinki@ + rem.2 == cilj.2
                }),
            decreases n - i,
        {
            let ghost pred = self.pogled();
            let ghost rem_hits = hit_list@.skip(i as int);
            let ghost msgs_pred = msgs@;
            let ghost ucinki_pred = ucinki@;
            let (id, aabb) = hit_list[i];
            proof {
                assert(rem_hits[0] == hit_list@[i as int]);
                assert(rem_hits.skip(1) =~= hit_list@.skip(i + 1 as int));
            }
            if id != napadalec_id {
                match aabb.ray_hit(pozicija, smer) {
                    None => {},
                    Some(tocka) => {
                        let px = v_i32(tocka.0);
                        let py = v_i32(tocka.1);
                        if id == HOST_ID {
                            if self.health > 0 {
                                let nh = self.health - UDAREC;
                                let umrl = nh <= 0;
                                if umrl {
                                    self.health = 0;
                                    self.respawn_timer = RESPAWN_TIME_MS;
                                } else {
                                    self.health = nh;
                                }
                                proof {
                                    assert(pogledi(*self) =~= pred.klienti);
                                }
                                msgs.push(Odhodni::Vsem(Message::HitParticles(px, py)));
                                ucinki.push(Ucinek::Particles(px, py));
                                if umrl {
                                    msgs.push(
                                        Odhodni::Vsem(
                                            Message::PlayerDied(HOST_ID, napadalec_id),
                                        ),
                                    );
                                    ucinki.push(Ucinek::Ubil(napadalec_id, HOST_ID));
                                    self.pripisi_ubojstvo(napadalec_id);
                                }
                            }
                        } else {
                            match self.najdi_zivega_exec(id) {
                                None => {},
                                Some(j) => {
                                    let nh = self.clients[j].health - UDAREC;
                                    let umrl = nh <= 0;
                                    let nov_health: i32 = if umrl {
                                        0
                                    } else {
                                        nh
                                    };
                                    let nov_timer: i32 = if umrl {
                                        RESPAWN_TIME_MS
                                    } else {
                                        self.clients[j].respawn_timer
                                    };
                                    let c = &mut self.clients[j];
                                    c.health = nov_health;
                                    c.respawn_timer = nov_timer;
                                    proof {
                                        assert(pogledi(*self) =~= pred.klienti.update(
                                            j as int,
                                            KlientV {
                                                health: nov_health,
                                                respawn_timer: nov_timer,
                                                ..pred.klienti[j as int]
                                            },
                                        ));
                                    }
                                    msgs.push(
                                        Odhodni::Klientu(id, Message::Attack(nov_health)),
                                    );
                                    msgs.push(Odhodni::Vsem(Message::HitParticles(px, py)));
                                    ucinki.push(Ucinek::Particles(px, py));
                                    if umrl {
                                        msgs.push(
                                            Odhodni::Vsem(
                                                Message::PlayerDied(id, napadalec_id),
                                            ),
                                        );
                                        ucinki.push(Ucinek::Ubil(napadalec_id, id));
                                        self.pripisi_ubojstvo(napadalec_id);
                                    }
                                },
                            }
                        }
                    },
                }
            }
            proof {
                let korak = model_zadetek(pred, rem_hits[0], napadalec_id, pozicija, smer);
                assert(self.pogled() =~= korak.0);
                assert(msgs@ =~= msgs_pred + korak.1);
                assert(ucinki@ =~= ucinki_pred + korak.2);
                let naprej = model_napad(
                    self.pogled(),
                    hit_list@.skip(i + 1 as int),
                    napadalec_id,
                    pozicija,
                    smer,
                );
                assert(model_napad(pred, rem_hits, napadalec_id, pozicija, smer) == (
                    naprej.0,
                    korak.1 + naprej.1,
                    korak.2 + naprej.2,
                ));
                assert((msgs_pred + korak.1) + naprej.1 =~= msgs_pred + (korak.1 + naprej.1));
                assert((ucinki_pred + korak.2) + naprej.2 =~= ucinki_pred + (korak.2
                    + naprej.2));
                assert(msgs@ + naprej.1 =~= cilj.1);
                assert(ucinki@ + naprej.2 =~= cilj.2);
            }
            i = i + 1;
        }
        proof {
            assert(hit_list@.skip(n as int) =~= Seq::<(u32, AABB)>::empty());
            assert(msgs@ + Seq::<Odhodni>::empty() =~= msgs@);
            assert(ucinki@ + Seq::<Ucinek>::empty() =~= ucinki@);
        }
        (msgs, ucinki)
    }
}

impl Server {
    /// One remote peer's swing: build its sword hitbox, query the player
    /// layer, and resolve the candidates.
    pub fn attack(&mut self, fiz: &Physics, conn_i: usize) -> (r: (Vec<Odhodni>, Vec<Ucinek>))
        requires
            old(self).wf_sam(),
            fiz.wf(),
            conn_i < old(self).clients@.len(),
            old(self).clients@[conn_i as int].state.attack_time >= 0,
        ensures
            final(self).wf_sam(),
            ogrodje_enako(*old(self), *final(self)),
            ({
                let st = old(self).clients@[conn_i as int].state;
                let hitbox = spec_calc_sword_hitbox(
                    st.position,
                    st.attack_time,
                    st.razdalja_meca,
                    st.rotation,
                );
                let found = crate::collision::spec_area_query(fiz.din(), hitbox, LAYER_PLAYER);
                let m = model_napad(
                    old(self).pogled(),
                    found,
                    st.id,
                    ((st.position.0 as i64 + 8000) as i64, (st.position.1 as i64 + 12000) as i64),
                    (st.rotation.0 as i64, st.rotation.1 as i64),
                );
                final(self).pogled() == m.0 && r.0@ == m.1 && r.1@ == m.2
            }),
    {
        let st = self.clients[conn_i].state;
        let hitbox = calc_sword_hitbox(st.position, st.attack_time, st.razdalja_meca, st.rotation);
        let found = fiz.area_query(hitbox, LAYER_PLAYER);
        proof {
            crate::collision::lemma_area_query_tocna(fiz.din(), hitbox, LAYER_PLAYER);
            assert forall|k: int| 0 <= k < found@.len() implies (#[trigger] found@[k]).1.wf() by {
                assert(found@.contains(found@[k]));
            }
        }
        let pozicija = (st.position.0 as i64 + 8000, st.position.1 as i64 + 12000);
        let smer = (st.rotation.0 as i64, st.rotation.1 as i64);
        self.handle_attack(&found, st.id, pozicija, smer)
    }

    /// The host's own swing, resolved exactly like a remote peer's.
    pub fn attack_host(&mut self, fiz: &Physics, player: &Player) -> (r: (
        Vec<Odhodni>,
        Vec<Ucinek>,
    ))
        requires
            old(self).wf_sam(),
            fiz.wf(),
            player.attack_time >= 0,
        ensures
            final(self).wf_sam(),
            ogrodje_enako(*old(self), *final(self)),
            ({
                let hitbox = spec_calc_sword_hitbox(
                    player.position,
                    player.attack_time,
                    player.razdalja_meca,
                    player.rotation,
                );
                let found = crate::collision::spec_area_query(fiz.din(), hitbox, LAYER_PLAYER);
                let m = model_napad(
                    old(self).pogled(),
                    found,
                    HOST_ID,
                    (
                        (player.position.0 as i64 + 8000) as i64,
                        (player.position.1 as i64 + 12000) as i64,
                    ),
                    (player.rotation.0 as i64, player.rotation.1 as i64),
                );
                final(self).pogled() == m.0 && r.0@ == m.1 && r.1@ == m.2
            }),
    {
        let hitbox = calc_sword_hitbox(
            player.position,
            player.attack_time,
            player.razdalja_meca,
            player.rotation,
        );
        let found = fiz.area_query(hitbox, LAYER_PLAYER);
        proof {
            crate::collision::lemma_area_query_tocna(fiz.din(), hitbox, LAYER_PLAYER);
            assert forall|k: int| 0 <= k < found@.len() implies (#[trigger] found@[k]).1.wf() by {
                assert(found@.contains(found@[k]));
            }
        }
        let pozicija = (player.position.0 as i64 + 8000, player.position.1 as i64 + 12000);
        let smer = (player.rotation.0 as i64, player.rotation.1 as i64);
        self.handle_attack(&found, HOST_ID, pozicija, smer)
    }
}

impl Server {
    /// Applies one inbound message from connection `conn_i`.
    ///
    /// A `PlayerState` overwrites the connection's canonical state (never
    /// its id) and warps its collider to the reported position, trusting
    /// the client; every report that arrives with `attack_time == 0`
    /// triggers combat, once per such report. A
    /// `UserInfo` records the peer's name and re-broadcasts its roster
    /// entry. Every other variant is ignored by the server.
    #[verifier::rlimit(100)]
    pub fn handle_msg(&mut self, fiz: &mut Physics, msg: Message, conn_i: usize) -> (r: (
        Vec<Odhodni>,
        Vec<Ucinek>,
    ))
        requires
            old(self).wf(*old(fiz)),
            conn_i < old(self).clients@.len(),
            msg@.wf(),
        ensures
            final(self).wf(*final(fiz)),
            final(self).clients@.len() == old(self).clients@.len(),
            final(self).naslednji_id == old(self).naslednji_id,
            final(self).user_name == old(self).user_name,
            forall|i: int|
                0 <= i < old(self).clients@.len() && i != conn_i as int
                    ==> (#[trigger] final(self).clients@[i]).state == old(self).clients@[i].state
                    && final(self).clients@[i].user_name == old(self).clients@[i].user_name
                    && final(self).clients@[i].aabb_ref == old(self).clients@[i].aabb_ref
                    && final(self).clients@[i].inbox == old(self).clients@[i].inbox,
            final(self).clients@[conn_i as int].aabb_ref == old(self).clients@[
                conn_i as int
            ].aabb_ref,
            final(self).clients@[conn_i as int].inbox == old(self).clients@[conn_i as int].inbox,
            final(fiz).sta() == old(fiz).sta(),
            final(fiz).dinamicni.free@ == old(fiz).dinamicni.free@,
            final(fiz).din().len() == old(fiz).din().len(),
            ({
                let c = old(self).clients@[conn_i as int];
                match msg@ {
                    MessageV::PlayerState(st) => {
                        let nov_st = State { id: c.state.id, ..st };
                        let din1 = old(fiz).din().update(
                            c.aabb_ref.idx(),
                            Some(
                                Objekt {
                                    aabb: AABB {
                                        x: st.position.0 as i64,
                                        y: st.position.1 as i64,
                                        ..(old(fiz).din()[c.aabb_ref.idx()]->0).aabb
                                    },
                                    ..old(fiz).din()[c.aabb_ref.idx()]->0
                                },
                            ),
                        );
                        &&& final(self).clients@[conn_i as int].state == nov_st
                        &&& final(self).clients@[conn_i as int].user_name == c.user_name
                        &&& final(fiz).din() == din1
                        &&& if st.attack_time == 0 {
                            let hitbox = spec_calc_sword_hitbox(
                                st.position,
                                st.attack_time,
                                st.razdalja_meca,
                                st.rotation,
                            );
                            let found = crate::collision::spec_area_query(
                                din1,
                                hitbox,
                                LAYER_PLAYER,
                            );
                            let m = model_napad(
                                old(self).pogled(),
                                found,
                                c.state.id,
                                (
                                    (st.position.0 as i64 + 8000) as i64,
                                    (st.position.1 as i64 + 12000) as i64,
                                ),
                                (st.rotation.0 as i64, st.rotation.1 as i64),
                            );
                            final(self).pogled() == m.0 && r.0@ == m.1 && r.1@ == m.2
                        } else {
                            final(self).pogled() == old(self).pogled() && r.0@.len() == 0
                                && r.1@.len() == 0
                        }
                    },
                    MessageV::UserInfo(_novi_id, ime, _kills) => {
                        &&& final(self).clients@[conn_i as int].state == c.state
                        &&& final(self).clients@[conn_i as int].user_name@ == ime
                        &&& final(self).pogled() == old(self).pogled()
                        &&& final(fiz).din() == old(fiz).din()
                        &&& r.0@.len() == 1
                        &&& (r.0@[0] matches Odhodni::Vsem(m2) && m2@ == MessageV::UserInfo(
                            c.state.id,
                            ime,
                            c.kills,
                        ))
                        &&& r.1@ == seq![Ucinek::Pridruzil(c.state.id)]
                    },
                    _ => {
                        &&& final(self).clients@[conn_i as int] == c
                        &&& final(self).pogled() == old(self).pogled()
                        &&& final(fiz).din() == old(fiz).din()
                        &&& r.0@.len() == 0
                        &&& r.1@.len() == 0
                    },
                }
            }),
    {
        match msg {
            Message::PlayerState(st) => {
                let id = self.clients[conn_i].state.id;
                let mut nov = st;
                nov.id = id;
                let c = &mut self.clients[conn_i];
                c.state = nov;
                fiz.premakni_obj_na(
                    &self.clients[conn_i].aabb_ref,
                    (st.position.0 as i64, st.position.1 as i64),
                );
                proof {
                    assert forall|i: int|
                        0 <= i < self.clients@.len() implies fiz.veljaven_din(
                        (#[trigger] self.clients@[i]).aabb_ref,
                    ) by {
                        assert(old(fiz).veljaven_din(old(self).clients@[i].aabb_ref));
                    }
                    assert(pogledi(*self) =~= pogledi(*old(self)));
                    assert(self.pogled() =~= old(self).pogled());
                }
                if st.attack_time == 0 {
                    self.attack(fiz, conn_i)
                } else {
                    (Vec::new(), Vec::new())
                }
            },
            Message::UserInfo(_novi_id, ime, _kills) => {
                let id = self.clients[conn_i].state.id;
                let kills = self.clients[conn_i].kills;
                let kopija = ime.clone();
                let c = &mut self.clients[conn_i];
                c.user_name = ime;
                proof {
                    assert(pogledi(*self) =~= pogledi(*old(self)));
                    assert(self.pogled() =~= old(self).pogled());
                }
                let mut msgs: Vec<Odhodni> = Vec::new();
                msgs.push(Odhodni::Vsem(Message::UserInfo(id, kopija, kills)));
                let mut ucinki: Vec<Ucinek> = Vec::new();
                ucinki.push(Ucinek::Pridruzil(id));
                proof {
                    assert(ucinki@ =~= seq![Ucinek::Pridruzil(
                        old(self).clients@[conn_i as int].state.id,
                    )]);
                }
                (msgs, ucinki)
            },
            _ => (Vec::new(), Vec::new()),
        }
    }

    /// Hands the server bytes read off one connection's socket; they wait
    /// in that connection's inbox until [`Server::recv`] decodes them.
    pub fn prejmi_bajte(&mut self, conn_i: usize, bytes: &Vec<u8>)
        requires
            old(self).wf_sam(),
            conn_i < old(self).clients@.len(),
        ensures
            final(self).wf_sam(),
            final(self).clients@.len() == old(self).clients@.len(),
            forall|i: int|
                0 <= i < old(self).clients@.len() && i != conn_i as int ==> final(self).clients@[i]
                    == old(self).clients@[i],
            final(self).clients@[conn_i as int].inbox@ == old(self).clients@[
                conn_i as int
            ].inbox@ + bytes@,
            final(self).clients@[conn_i as int].state == old(self).clients@[conn_i as int].state,
            final(self).clients@[conn_i as int].user_name == old(self).clients@[
                conn_i as int
            ].user_name,
            final(self).clients@[conn_i as int].aabb_ref == old(self).clients@[
                conn_i as int
            ].aabb_ref,
            final(self).clients@[conn_i as int].health == old(self).clients@[
                conn_i as int
            ].health,
            final(self).clients@[conn_i as int].respawn_timer == old(self).clients@[
                conn_i as int
            ].respawn_timer,
            final(self).clients@[conn_i as int].kills == old(self).clients@[conn_i as int].kills,
            final(self).naslednji_id == old(self).naslednji_id,
            final(self).user_name == old(self).user_name,
            final(self).health == old(self).health,
            final(self).respawn_timer == old(self).respawn_timer,
            final(self).kills == old(self).kills,
            final(self).nov_leaderboard == old(self).nov_leaderboard,
    {
        let c = &mut self.clients[conn_i];
        c.inbox.extend_from_slice(bytes.as_slice());
    }

    /// Drains one connection's inbox: repeatedly decodes one message and
    /// applies it, until the buffer holds no whole record ("no data yet")
    /// or a malformed one (kept for the next tick, as the transport would).
    /// Returns the outbound messages, the cosmetic effects, and the
    /// messages that were decoded, in order.
    #[verifier::rlimit(100)]
    pub fn recv(&mut self, fiz: &mut Physics, conn_i: usize) -> (r: (
        Vec<Odhodni>,
        Vec<Ucinek>,
        Vec<Message>,
    ))
        requires
            old(self).wf(*old(fiz)),
            conn_i < old(self).clients@.len(),
        ensures
            final(self).wf(*final(fiz)),
            final(self).clients@.len() == old(self).clients@.len(),
            final(self).naslednji_id == old(self).naslednji_id,
            final(self).user_name == old(self).user_name,
            forall|i: int|
                0 <= i < old(self).clients@.len() && i != conn_i as int
                    ==> (#[trigger] final(self).clients@[i]).state == old(self).clients@[i].state
                    && final(self).clients@[i].user_name == old(self).clients@[i].user_name
                    && final(self).clients@[i].aabb_ref == old(self).clients@[i].aabb_ref
                    && final(self).clients@[i].inbox == old(self).clients@[i].inbox,
            final(self).clients@[conn_i as int].aabb_ref == old(self).clients@[
                conn_i as int
            ].aabb_ref,
            final(fiz).sta() == old(fiz).sta(),
            final(fiz).dinamicni.free@ == old(fiz).dinamicni.free@,
            final(fiz).din().len() == old(fiz).din().len(),
            ({
                let stari = old(self).clients@[conn_i as int].inbox@;
                let raz = crate::protocol::spec_razcep(stari, (stari.len() + 1) as nat);
                let konec = model_streznik_pump(
                    streznikov_pogled(*old(self), *old(fiz)),
                    conn_i as int,
                    raz.0,
                );
                &&& final(self).clients@[conn_i as int].inbox@ == stari.skip(raz.1)
                &&& r.2@.len() == raz.0.len()
                &&& forall|k: int| 0 <= k < raz.0.len() ==> (#[trigger] r.2@[k])@ == raz.0[k]
                &&& streznikov_pogled(*final(self), *final(fiz)) == konec.0
                &&& odhodni_pogledi(r.0@) == konec.1
                &&& r.1@ == konec.2
            }),
    {
        let ghost stari = self.clients@[conn_i as int].inbox@;
        let ghost raz = crate::protocol::spec_razcep(stari, (stari.len() + 1) as nat);
        let mut msgs: Vec<Odhodni> = Vec::new();
        let mut ucinki: Vec<Ucinek> = Vec::new();
        let mut prejeta: Vec<Message> = Vec::new();
        let ghost cilj = model_streznik_pump(
            streznikov_pogled(*old(self), *old(fiz)),
            conn_i as int,
            raz.0,
        );
        let mut offset: usize = 0;
        let n = self.clients[conn_i].inbox.len();
        proof {
            assert(stari.skip(0) =~= stari);
            assert(Seq::new(prejeta@.len(), |k: int| prejeta@[k]@) + raz.0 =~= raz.0);
            assert(odhodni_pogledi(msgs@) =~= Seq::<OdhodniV>::empty());
            assert(Seq::<OdhodniV>::empty() + cilj.1 =~= cilj.1);
            assert(Seq::<Ucinek>::empty() + cilj.2 =~= cilj.2);
        }
        loop
            invariant
                self.wf(*fiz),
                conn_i < self.clients@.len(),
                self.clients@.len() == old(self).clients@.len(),
                self.naslednji_id == old(self).naslednji_id,
                self.user_name == old(self).user_name,
                forall|i: int|
                    0 <= i < old(self).clients@.len() && i != conn_i as int
                        ==> (#[trigger] self.clients@[i]).state == old(self).clients@[i].state
                        && self.clients@[i].user_name == old(self).clients@[i].user_name
                        && self.clients@[i].aabb_ref == old(self).clients@[i].aabb_ref
                        && self.clients@[i].inbox == old(self).clients@[i].inbox,
                self.clients@[conn_i as int].aabb_ref == old(self).clients@[
                    conn_i as int
                ].aabb_ref,
                fiz.sta() == old(fiz).sta(),
                fiz.dinamicni.free@ == old(fiz).dinamicni.free@,
                fiz.din().len() == old(fiz).din().len(),
                self.clients@[conn_i as int].inbox@ == stari,
                n == stari.len(),
                offset <= n,
                raz == crate::protocol::spec_razcep(stari, (stari.len() + 1) as nat),
                ({
                    let rem = crate::protocol::spec_razcep(
                        stari.skip(offset as int),
                        (stari.len() + 1 - offset) as nat,
                    );
                    let rem_pump = model_streznik_pump(
                        streznikov_pogled(*self, *fiz),
                        conn_i as int,
                        rem.0,
                    );
                    &&& raz.0 == Seq::new(prejeta@.len(), |k: int| prejeta@[k]@) + rem.0
                    &&& raz.1 == offset + rem.1
                    &&& rem_pump.0 == cilj.0
                    &&& odhodni_pogledi(msgs@) + rem_pump.1 == cilj.1
                    &&& ucinki@ + rem_pump.2 == cilj.2
                }),
            ensures
                self.wf(*fiz),
                offset <= n,
                self.clients@[conn_i as int].inbox@ == stari,
                crate::protocol::spec_decode(stari.skip(offset as int)) is Err,
                self.clients@.len() == old(self).clients@.len(),
                self.naslednji_id == old(self).naslednji_id,
                self.user_name == old(self).user_name,
                forall|i: int|
                    0 <= i < old(self).clients@.len() && i != conn_i as int
                        ==> (#[trigger] self.clients@[i]).state == old(self).clients@[i].state
                        && self.clients@[i].user_name == old(self).clients@[i].user_name
                        && self.clients@[i].aabb_ref == old(self).clients@[i].aabb_ref
                        && self.clients@[i].inbox == old(self).clients@[i].inbox,
                self.clients@[conn_i as int].aabb_ref == old(self).clients@[
                    conn_i as int
                ].aabb_ref,
                fiz.sta() == old(fiz).sta(),
                fiz.dinamicni.free@ == old(fiz).dinamicni.free@,
                fiz.din().len() == old(fiz).din().len(),
                ({
                    let rem = crate::protocol::spec_razcep(
                        stari.skip(offset as int),
                        (stari.len() + 1 - offset) as nat,
                    );
                    let rem_pump = model_streznik_pump(
                        streznikov_pogled(*self, *fiz),
                        conn_i as int,
                        rem.0,
                    );
                    &&& raz.0 == Seq::new(prejeta@.len(), |k: int| prejeta@[k]@) + rem.0
                    &&& raz.1 == offset + rem.1
                    &&& rem_pump.0 == cilj.0
                    &&& odhodni_pogledi(msgs@) + rem_pump.1 == cilj.1
                    &&& ucinki@ + rem_pump.2 == cilj.2
                }),
            decreases n - offset,
        {
            let odloceno = decode(&self.clients[conn_i].inbox, offset);
            match odloceno {
                Ok((m, next)) => {
                    proof {
                        crate::protocol::lemma_spec_decode_wf(stari.skip(offset as int));
                        crate::protocol::lemma_spec_decode_meje(stari.skip(offset as int));
                    }
                    let ghost prejeta_pred = prejeta@;
                    let ghost w_pred = streznikov_pogled(*self, *fiz);
                    let ghost msgs_pred = msgs@;
                    let ghost ucinki_pred = ucinki@;
                    prejeta.push(kopiraj_sporocilo(&m));
                    let (m1, u1) = self.handle_msg(fiz, m, conn_i);
                    let ghost r0 = m1@;
                    let mut m1 = m1;
                    let mut u1 = u1;
                    msgs.append(&mut m1);
                    ucinki.append(&mut u1);
                    proof {
                        let korak = model_streznik_sporocila(w_pred, conn_i as int, m@);
                        assert(streznikov_pogled(*self, *fiz) =~= korak.0);
                        assert(odhodni_pogledi(r0) =~= korak.1);
                        assert(odhodni_pogledi(msgs@) =~= odhodni_pogledi(msgs_pred)
                            + odhodni_pogledi(r0));
                        assert(ucinki@ =~= ucinki_pred + korak.2);
                        assert(stari.skip(offset as int).skip(next - offset) =~= stari.skip(
                            next as int,
                        ));
                        crate::protocol::lemma_razcep_gorivo(
                            stari.skip(next as int),
                            (stari.len() + 1 - offset - 1) as nat,
                            (stari.len() + 1 - next) as nat,
                        );
                        let rem_pred = crate::protocol::spec_razcep(
                            stari.skip(offset as int),
                            (stari.len() + 1 - offset) as nat,
                        );
                        let rem_novi = crate::protocol::spec_razcep(
                            stari.skip(next as int),
                            (stari.len() + 1 - next) as nat,
                        );
                        assert(rem_pred.0 == seq![m@] + rem_novi.0);
                        assert(Seq::new(prejeta@.len(), |k: int| prejeta@[k]@) =~= Seq::new(
                            prejeta_pred.len(),
                            |k: int| prejeta_pred[k]@,
                        ) + seq![m@]);
                        assert((Seq::new(prejeta_pred.len(), |k: int| prejeta_pred[k]@)
                            + seq![m@]) + rem_novi.0 =~= Seq::new(
                            prejeta_pred.len(),
                            |k: int| prejeta_pred[k]@,
                        ) + (seq![m@] + rem_novi.0));
                        assert((seq![m@] + rem_novi.0)[0] == m@);
                        assert((seq![m@] + rem_novi.0).skip(1) =~= rem_novi.0);
                        let naprej = model_streznik_pump(korak.0, conn_i as int, rem_novi.0);
                        assert(model_streznik_pump(w_pred, conn_i as int, rem_pred.0) == (
                            naprej.0,
                            korak.1 + naprej.1,
                            korak.2 + naprej.2,
                        ));
                        assert((odhodni_pogledi(msgs_pred) + korak.1) + naprej.1
                            =~= odhodni_pogledi(msgs_pred) + (korak.1 + naprej.1));
                        assert((ucinki_pred + korak.2) + naprej.2 =~= ucinki_pred + (korak.2
                            + naprej.2));
                    }
                    offset = next;
                },
                Err(_) => {
                    break ;
                },
            }
        }
        let mut ostanek: Vec<u8> = Vec::new();
        let mut k: usize = offset;
        while k < n
            invariant
                n == self.clients@[conn_i as int].inbox@.len(),
                conn_i < self.clients@.len(),
                offset <= k <= n,
                ostanek@ == self.clients@[conn_i as int].inbox@.subrange(offset as int, k as int),
            decreases n - k,
        {
            let b = self.clients[conn_i].inbox[k];
            ostanek.push(b);
            proof {
                assert(ostanek@ =~= self.clients@[conn_i as int].inbox@.subrange(
                    offset as int,
                    k + 1 as int,
                ));
            }
            k = k + 1;
        }
        let c = &mut self.clients[conn_i];
        c.inbox = ostanek;
        proof {
            assert(stari.subrange(offset as int, stari.len() as int) =~= stari.skip(
                offset as int,
            ));
            let rem = crate::protocol::spec_razcep(
                stari.skip(offset as int),
                (stari.len() + 1 - offset) as nat,
            );
            assert(rem.0 =~= Seq::<MessageV>::empty());
            assert(raz.0 =~= Seq::new(prejeta@.len(), |k: int| prejeta@[k]@));
            assert forall|k: int| 0 <= k < raz.0.len() implies (#[trigger] prejeta@[k])@
                == raz.0[k] by {
                assert(raz.0[k] == Seq::new(prejeta@.len(), |j: int| prejeta@[j]@)[k]);
            }
            assert(odhodni_pogledi(msgs@) + Seq::<OdhodniV>::empty() =~= odhodni_pogledi(
                msgs@,
            ));
            assert(ucinki@ + Seq::<Ucinek>::empty() =~= ucinki@);
        }
        (msgs, ucinki, prejeta)
    }

    /// Removes a disconnected peer: frees its collider, drops its canonical
    /// state (by swap, as the connection list is unordered), and announces
    /// the departure to everyone exactly once.
    pub fn odstrani_klienta(&mut self, fiz: &mut Physics, conn_i: usize) -> (r: (
        Vec<Odhodni>,
        Vec<Ucinek>,
    ))
        requires
            old(self).wf(*old(fiz)),
            conn_i < old(self).clients@.len(),
        ensures
            final(self).wf(*final(fiz)),
            final(self).clients@ == old(self).clients@.update(
                conn_i as int,
                old(self).clients@.last(),
            ).drop_last(),
            final(fiz).din() == old(fiz).din().update(
                old(self).clients@[conn_i as int].aabb_ref.idx(),
                None,
            ),
            final(fiz).sta() == old(fiz).sta(),
            final(self).naslednji_id == old(self).naslednji_id,
            final(self).user_name == old(self).user_name,
            final(self).health == old(self).health,
            final(self).kills == old(self).kills,
            final(self).respawn_timer == old(self).respawn_timer,
            final(self).nov_leaderboard,
            r.0@.len() == 1,
            (r.0@[0] matches Odhodni::Vsem(m) && m@ == MessageV::PlayerDisconnected(
                old(self).clients@[conn_i as int].state.id,
            )),
            r.1@ == seq![Ucinek::Zapustil(old(self).clients@[conn_i as int].state.id)],
    {
        let id = self.clients[conn_i].state.id;
        let gone = self.clients.swap_remove(conn_i);
        fiz.izbrisi_dinamicen_obj(gone.aabb_ref);
        self.nov_leaderboard = true;
        proof {
            assert forall|i: int|
                0 <= i < self.clients@.len() implies fiz.veljaven_din(
                (#[trigger] self.clients@[i]).aabb_ref,
            ) by {
                if i == conn_i as int {
                    assert(self.clients@[i] == old(self).clients@[old(self).clients@.len() - 1]);
                } else {
                    assert(self.clients@[i] == old(self).clients@[i]);
                }
            }
        }
        let mut msgs: Vec<Odhodni> = Vec::new();
        msgs.push(Odhodni::Vsem(Message::PlayerDisconnected(id)));
        let mut ucinki: Vec<Ucinek> = Vec::new();
        ucinki.push(Ucinek::Zapustil(id));
        proof {
            assert(ucinki@ =~= seq![Ucinek::Zapustil(
                old(self).clients@[conn_i as int].state.id,
            )]);
        }
        (msgs, ucinki)
    }
}

/// Relies on rand's `Rng::gen_range` on `rand::thread_rng()`: a sample in
/// the half-open range `[lo, hi)`; it panics only on an empty range, which
/// the contract rules out. Nothing more is assumed of the value.
#[verifier::external_body]
fn gen_range_i32(lo: i32, hi: i32) -> (r: i32)
    requires
        lo < hi,
    ensures
        lo <= r < hi,
{
    rand::thread_rng().gen_range(lo..hi)
}

/// States of the connections that are alive, in connection order.
pub open spec fn spec_zivi(cl: Seq<ServerConnection>) -> Seq<State>
    decreases cl.len(),
{
    if cl.len() == 0 {
        Seq::empty()
    } else {
        let prej = spec_zivi(cl.drop_last());
        if cl.last().health > 0 {
            prej.push(cl.last().state)
        } else {
            prej
        }
    }
}

/// Ids of dead connections whose respawn timer expires this tick.
pub open spec fn spec_respawnani(cl: Seq<ServerConnection>, delta: i32) -> Seq<u32>
    decreases cl.len(),
{
    if cl.len() == 0 {
        Seq::empty()
    } else {
        let prej = spec_respawnani(cl.drop_last(), delta);
        if cl.last().health <= 0 && cl.last().respawn_timer - delta <= 0 {
            prej.push(cl.last().state.id)
        } else {
            prej
        }
    }
}

/// Ids of live connections that have fallen past [`FALLOFF_Y`].
pub open spec fn spec_padli(cl: Seq<ServerConnection>) -> Seq<u32>
    decreases cl.len(),
{
    if cl.len() == 0 {
        Seq::empty()
    } else {
        let prej = spec_padli(cl.drop_last());
        if cl.last().health > 0 && cl.last().state.position.1 > FALLOFF_Y {
            prej.push(cl.last().state.id)
        } else {
            prej
        }
    }
}

impl Server {
    /// The snapshot broadcast every tick: the state of every live
    /// connection, plus the host's own state if the host is alive. Dead
    /// peers are omitted until they respawn.
    pub fn poslji_vse_state(&self, player: &Player) -> (r: Message)
        requires
            self.wf_sam(),
            player.wf_polja(),
            self.clients@.len() < 0xffff_ffff,
        ensures
            r@ == MessageV::AllPlayersState(
                spec_zivi(self.clients@) + if self.health > 0 {
                    seq![spec_host_state(*self, *player)]
                } else {
                    Seq::empty()
                },
            ),
            r@.wf(),
    {
        let mut states: Vec<State> = Vec::new();
        let n = self.clients.len();
        let mut i: usize = 0;
        while i < n
            invariant
                n == self.clients@.len(),
                i <= n,
                states@ == spec_zivi(self.clients@.take(i as int)),
                states@.len() <= i,
            decreases n - i,
        {
            if self.clients[i].health > 0 {
                states.push(self.clients[i].state);
            }
            proof {
                assert(self.clients@.take(i + 1 as int).drop_last() =~= self.clients@.take(
                    i as int,
                ));
                assert(self.clients@.take(i + 1 as int).last() == self.clients@[i as int]);
            }
            i = i + 1;
        }
        proof {
            assert(self.clients@.take(n as int) =~= self.clients@);
        }
        if self.health > 0 {
            let xy = self.izr_host_frame(player);
            states.push(
                State {
                    id: HOST_ID,
                    position: player.position,
                    rotation: player.rotation,
                    anim_frame: xy,
                    attack_time: player.attack_time,
                    razdalja_meca: player.razdalja_meca,
                },
            );
            proof {
                assert(states@ =~= spec_zivi(self.clients@) + seq![
                    spec_host_state(*self, *player),
                ]);
            }
        } else {
            proof {
                assert(states@ =~= spec_zivi(self.clients@) + Seq::<State>::empty());
            }
        }
        Message::AllPlayersState(states)
    }

    fn izr_host_frame(&self, player: &Player) -> (r: (i32, i32))
        requires
            player.wf_polja(),
        ensures
            (r.0 as int, r.1 as int) == player.animacije@[
                player.trenutna_anim as int
            ].spec_izr_frame_xy(),
    {
        player.get_anim().izr_frame_xy()
    }

    /// Fresh spawn point: a uniformly random x across the spawn strip, at
    /// the strip's fixed height.
    pub fn get_respawn_location() -> (r: (i32, i32))
        ensures
            -200000 <= r.0 < 200000,
            r.1 == -250000,
    {
        (gen_range_i32(-200000, 200000), -250000)
    }

    /// The per-tick death/respawn bookkeeping, in a fixed order:
    /// dead players count their respawn timers down by `delta` and, on
    /// expiry, come back at full health at a fresh random spawn point (the
    /// host teleports directly, a peer is sent a private `Respawn` and its
    /// canonical y is parked high above the world so the fall check cannot
    /// kill it twice); then any live player fallen past [`FALLOFF_Y`] dies
    /// with no attacker, is told its zeroed health, and the death is
    /// announced to everyone.
    #[verifier::rlimit(100)]
    pub fn posodobi(&mut self, delta: i32, player: &mut Player, fiz: &mut Physics) -> (r: (
        Vec<Odhodni>,
        Vec<Ucinek>,
    ))
        requires
            old(self).wf(*old(fiz)),
            old(player).wf(*old(fiz)),
            0 <= delta <= 100000,
        ensures
            final(self).wf(*final(fiz)),
            final(player).wf(*final(fiz)),
            final(self).clients@.len() == old(self).clients@.len(),
            final(self).naslednji_id == old(self).naslednji_id,
            final(self).user_name == old(self).user_name,
            final(self).kills == old(self).kills,
            final(fiz).sta() == old(fiz).sta(),
            final(fiz).dinamicni.free@ == old(fiz).dinamicni.free@,
            final(fiz).din().len() == old(fiz).din().len(),
            ({
                let respawnal = old(self).health <= 0 && old(self).respawn_timer - delta <= 0;
                &&& (old(self).health <= 0 && !respawnal ==> final(self).health == 0 && final(self).respawn_timer == old(self).respawn_timer - delta && *final(player) == *old(player))
                &&& (respawnal ==> final(self).health == 100 && -200000 <= final(player).position.0 < 200000 && final(player).position.1 == -250000 && *final(player) == (Player { position: final(player).position, ..*old(player) }))
                &&& (old(self).health > 0 && old(player).position.1 > FALLOFF_Y ==> final(self).health == 0 && final(self).respawn_timer == RESPAWN_TIME_MS)
                &&& (old(self).health > 0 && old(player).position.1 <= FALLOFF_Y ==> final(self).health == old(self).health && *final(player) == *old(player))
                &&& (respawnal ==> final(fiz).din() == old(fiz).din().update(
                    old(player).aabb_ref.idx(),
                    Some(
                        Objekt {
                            aabb: AABB {
                                x: final(player).position.0 as i64,
                                y: final(player).position.1 as i64,
                                ..(old(fiz).din()[old(player).aabb_ref.idx()]->0).aabb
                            },
                            ..old(fiz).din()[old(player).aabb_ref.idx()]->0
                        },
                    ),
                ).update(
                    old(player).sword_ref.idx(),
                    Some(
                        Objekt {
                            aabb: AABB {
                                x: final(player).position.0 as i64,
                                y: final(player).position.1 as i64,
                                ..(old(fiz).din()[old(player).sword_ref.idx()]->0).aabb
                            },
                            ..old(fiz).din()[old(player).sword_ref.idx()]->0
                        },
                    ),
                ))
                &&& (!respawnal ==> final(fiz).din() == old(fiz).din())
            }),
            forall|i: int|
                0 <= i < old(self).clients@.len() ==> zveza_tick(
                    old(self).clients@[i],
                    #[trigger] final(self).clients@[i],
                    delta,
                ),
            ({
                let resp = spec_respawnani(old(self).clients@, delta);
                let padli = spec_padli(old(self).clients@);
                let host_padel = old(self).health > 0 && old(player).position.1 > FALLOFF_Y;
                let st_host: int = if host_padel {
                    1int
                } else {
                    0int
                };
                &&& r.0@.len() == resp.len() + st_host + 2 * padli.len()
                &&& (forall|k: int|
                    0 <= k < resp.len() ==> ((#[trigger] r.0@[k]) matches Odhodni::Klientu(
                        id,
                        m,
                    ) && id == resp[k] && (m@ matches MessageV::Respawn(x, y) && -200000 <= x
                        < 200000 && y == -250000)))
                &&& (host_padel ==> r.0@[resp.len() as int] == Odhodni::Vsem(
                    Message::PlayerDied(HOST_ID, NEZNAN_ID),
                ))
                &&& (forall|k: int|
                    0 <= k < padli.len() ==> (#[trigger] r.0@[resp.len() + st_host + k])
                        == Odhodni::Klientu(padli[k], Message::Attack(0)))
                &&& (forall|k: int|
                    0 <= k < padli.len() ==> (#[trigger] r.0@[resp.len() + st_host
                        + padli.len() + k]) == Odhodni::Vsem(
                        Message::PlayerDied(padli[k], NEZNAN_ID),
                    ))
                &&& r.1@ == (if host_padel {
                    seq![Ucinek::SamSebe(HOST_ID)]
                } else {
                    Seq::<Ucinek>::empty()
                }) + Seq::new(padli.len(), |k: int| Ucinek::SamSebe(padli[k]))
            }),
    {
        let ghost stari_cl = self.clients@;
        let mut msgs: Vec<Odhodni> = Vec::new();
        let mut ucinki: Vec<Ucinek> = Vec::new();
        if self.health <= 0 {
            self.respawn_timer = self.respawn_timer - delta;
            if self.respawn_timer <= 0 {
                self.health = 100;
                player.nastavi_pozicijo(Server::get_respawn_location(), fiz);
            }
        }
        proof {
            assert forall|i: int|
                0 <= i < self.clients@.len() implies fiz.veljaven_din(
                (#[trigger] self.clients@[i]).aabb_ref,
            ) by {
                assert(old(fiz).veljaven_din(self.clients@[i].aabb_ref));
            }
        }
        let n = self.clients.len();
        let mut i: usize = 0;
        while i < n
            invariant
                n == self.clients@.len() == stari_cl.len(),
                i <= n,
                0 <= delta <= 100000,
                self.naslednji_id == old(self).naslednji_id,
                self.user_name == old(self).user_name,
                self.kills == old(self).kills,
                0 <= self.health <= 100,
                -1000000 <= self.respawn_timer <= 10000,
                self.health <= 0 ==> self.respawn_timer > 0,
                (old(self).health <= 0 && old(self).respawn_timer - delta > 0 ==> self.health == 0
                    && self.respawn_timer == old(self).respawn_timer - delta),
                (old(self).health <= 0 && old(self).respawn_timer - delta <= 0 ==> self.health
                    == 100 && -200000 <= player.position.0 < 200000 && player.position.1
                    == -250000),
                (old(self).health > 0 ==> self.health == old(self).health && self.respawn_timer
                    == old(self).respawn_timer && *player == *old(player)),
                forall|j: int| i <= j < n ==> (#[trigger] self.clients@[j]) == stari_cl[j],
                forall|j: int| 0 <= j < n ==> (#[trigger] self.clients@[j]).cwf(),
                forall|j: int| 0 <= j < n ==> (#[trigger] stari_cl[j]).cwf(),
                forall|j: int|
                    0 <= j < i ==> zveza_respawna(
                        stari_cl[j],
                        #[trigger] self.clients@[j],
                        delta,
                    ),
                msgs@.len() == spec_respawnani(stari_cl.take(i as int), delta).len(),
                forall|k: int|
                    0 <= k < msgs@.len() ==> ((#[trigger] msgs@[k]) matches Odhodni::Klientu(
                        id,
                        m,
                    ) && id == spec_respawnani(stari_cl.take(i as int), delta)[k] && (m@
                        matches MessageV::Respawn(x, y) && -200000 <= x < 200000 && y
                        == -250000)),
                ucinki@.len() == 0,
            decreases n - i,
        {
            if self.clients[i].health <= 0 {
                let novi_timer = self.clients[i].respawn_timer - delta;
                let c = &mut self.clients[i];
                c.respawn_timer = novi_timer;
                if novi_timer <= 0 {
                    let id = self.clients[i].state.id;
                    let kam = Server::get_respawn_location();
                    let c = &mut self.clients[i];
                    c.health = 100;
                    c.state.position.1 = -1000000;
                    msgs.push(Odhodni::Klientu(id, Message::Respawn(kam.0, kam.1)));
                }
            }
            proof {
                assert(stari_cl.take(i + 1 as int).drop_last() =~= stari_cl.take(i as int));
                assert(stari_cl.take(i + 1 as int).last() == stari_cl[i as int]);
            }
            i = i + 1;
        }
        proof {
            assert(stari_cl.take(n as int) =~= stari_cl);
        }
        let host_padel = self.health > 0 && player.position.1 > FALLOFF_Y;
        if host_padel {
            self.health = 0;
            self.respawn_timer = RESPAWN_TIME_MS;
            msgs.push(Odhodni::Vsem(Message::PlayerDied(HOST_ID, NEZNAN_ID)));
            ucinki.push(Ucinek::SamSebe(HOST_ID));
        }
        let ghost po_respawnu = self.clients@;
        let ghost zdravje_po = self.health;
        let ghost timer_po = self.respawn_timer;
        let ghost baza = msgs@.len() as int;
        let ghost msgs_fazi2 = msgs@;
        let mut umrli: Vec<Odhodni> = Vec::new();
        let mut j: usize = 0;
        while j < n
            invariant
                n == self.clients@.len() == stari_cl.len() == po_respawnu.len(),
                j <= n,
                0 <= delta <= 100000,
                self.naslednji_id == old(self).naslednji_id,
                self.user_name == old(self).user_name,
                self.kills == old(self).kills,
                self.health == zdravje_po && self.respawn_timer == timer_po,
                0 <= self.health <= 100,
                -1000000 <= self.respawn_timer <= 10000,
                self.health <= 0 ==> self.respawn_timer > 0,
                0 <= baza == msgs_fazi2.len(),
                forall|k: int| 0 <= k < baza ==> (#[trigger] msgs@[k]) == msgs_fazi2[k],
                forall|k: int| j <= k < n ==> (#[trigger] self.clients@[k]) == po_respawnu[k],
                forall|k: int| 0 <= k < n ==> (#[trigger] self.clients@[k]).cwf(),
                forall|k: int| 0 <= k < n ==> (#[trigger] stari_cl[k]).cwf(),
                forall|k: int|
                    0 <= k < n ==> zveza_respawna(stari_cl[k], #[trigger] po_respawnu[k], delta),
                forall|k: int|
                    0 <= k < j ==> zveza_padca(po_respawnu[k], #[trigger] self.clients@[k]),
                msgs@.len() == baza + spec_padli(stari_cl.take(j as int)).len(),
                forall|k: int|
                    baza <= k < msgs@.len() ==> (#[trigger] msgs@[k]) == Odhodni::Klientu(
                        spec_padli(stari_cl.take(j as int))[k - baza],
                        Message::Attack(0),
                    ),
                umrli@.len() == spec_padli(stari_cl.take(j as int)).len(),
                forall|k: int|
                    0 <= k < umrli@.len() ==> (#[trigger] umrli@[k]) == Odhodni::Vsem(
                        Message::PlayerDied(
                            spec_padli(stari_cl.take(j as int))[k],
                            NEZNAN_ID,
                        ),
                    ),
                ucinki@ == (if host_padel {
                    seq![Ucinek::SamSebe(HOST_ID)]
                } else {
                    Seq::<Ucinek>::empty()
                }) + Seq::new(
                    spec_padli(stari_cl.take(j as int)).len(),
                    |k: int| Ucinek::SamSebe(spec_padli(stari_cl.take(j as int))[k]),
                ),
            decreases n - j,
        {
            let ghost padli_pred = spec_padli(stari_cl.take(j as int));
            let ghost msgs_pred = msgs@;
            let ghost umrli_pred = umrli@;
            proof {
                assert(zveza_respawna(stari_cl[j as int], po_respawnu[j as int], delta));
                assert((po_respawnu[j as int].health > 0 && po_respawnu[
                    j as int
                ].state.position.1 > FALLOFF_Y) == (stari_cl[j as int].health > 0 && stari_cl[
                    j as int
                ].state.position.1 > FALLOFF_Y));
                assert(stari_cl.take(j + 1 as int).drop_last() =~= stari_cl.take(j as int));
                assert(stari_cl.take(j + 1 as int).last() == stari_cl[j as int]);
            }
            if self.clients[j].health > 0 && self.clients[j].state.position.1 > FALLOFF_Y {
                let id = self.clients[j].state.id;
                let c = &mut self.clients[j];
                c.health = 0;
                c.respawn_timer = RESPAWN_TIME_MS;
                msgs.push(Odhodni::Klientu(id, Message::Attack(0)));
                umrli.push(Odhodni::Vsem(Message::PlayerDied(id, NEZNAN_ID)));
                ucinki.push(Ucinek::SamSebe(id));
                proof {
                    let padli_zdaj = spec_padli(stari_cl.take(j + 1 as int));
                    assert(padli_zdaj == padli_pred.push(stari_cl[j as int].state.id));
                    assert(id == stari_cl[j as int].state.id);
                    let push_m = msgs_pred.push(Odhodni::Klientu(id, Message::Attack(0)));
                    let push_u = umrli_pred.push(
                        Odhodni::Vsem(Message::PlayerDied(id, NEZNAN_ID)),
                    );
                    assert(msgs@ == push_m);
                    assert(umrli@ == push_u);
                    assert forall|k: int| 0 <= k < baza implies (#[trigger] msgs@[k])
                        == msgs_fazi2[k] by {
                        assert(push_m[k] == msgs_pred[k]);
                    }
                    assert forall|k: int|
                        baza <= k < msgs@.len() implies (#[trigger] msgs@[k])
                        == Odhodni::Klientu(padli_zdaj[k - baza], Message::Attack(0)) by {
                        if k < msgs_pred.len() {
                            assert(push_m[k] == msgs_pred[k]);
                            assert(padli_zdaj[k - baza] == padli_pred[k - baza]);
                        } else {
                            assert(push_m[k] == Odhodni::Klientu(id, Message::Attack(0)));
                            assert(padli_zdaj[k - baza] == id);
                        }
                    }
                    assert forall|k: int|
                        0 <= k < umrli@.len() implies (#[trigger] umrli@[k]) == Odhodni::Vsem(
                        Message::PlayerDied(padli_zdaj[k], NEZNAN_ID),
                    ) by {
                        if k < umrli_pred.len() {
                            assert(push_u[k] == umrli_pred[k]);
                            assert(padli_zdaj[k] == padli_pred[k]);
                        } else {
                            assert(push_u[k] == Odhodni::Vsem(
                                Message::PlayerDied(id, NEZNAN_ID),
                            ));
                            assert(padli_zdaj[k] == id);
                        }
                    }
                    assert(ucinki@ =~= (if host_padel {
                        seq![Ucinek::SamSebe(HOST_ID)]
                    } else {
                        Seq::<Ucinek>::empty()
                    }) + Seq::new(padli_zdaj.len(), |k: int| Ucinek::SamSebe(padli_zdaj[k])));
                }
            } else {
                proof {
                    let padli_zdaj = spec_padli(stari_cl.take(j + 1 as int));
                    assert(padli_zdaj == padli_pred);
                    assert(ucinki@ =~= (if host_padel {
                        seq![Ucinek::SamSebe(HOST_ID)]
                    } else {
                        Seq::<Ucinek>::empty()
                    }) + Seq::new(padli_zdaj.len(), |k: int| Ucinek::SamSebe(padli_zdaj[k])));
                }
            }
            j = j + 1;
        }
        proof {
            assert(stari_cl.take(n as int) =~= stari_cl);
        }
        let ghost pred_zdruzitvijo = msgs@;
        let ghost umrli_snap = umrli@;
        msgs.append(&mut umrli);
        proof {
            assert(msgs@ == pred_zdruzitvijo + umrli_snap);
            assert forall|k: int| 0 <= k < msgs@.len() implies #[trigger] msgs@[k] == (if k
                < pred_zdruzitvijo.len() {
                pred_zdruzitvijo[k]
            } else {
                umrli_snap[k - pred_zdruzitvijo.len()]
            }) by {
                assert((pred_zdruzitvijo + umrli_snap)[k] == (if k < pred_zdruzitvijo.len() {
                    pred_zdruzitvijo[k]
                } else {
                    umrli_snap[k - pred_zdruzitvijo.len()]
                }));
            }
            let padli_konec = spec_padli(old(self).clients@);
            let resp_konec = spec_respawnani(old(self).clients@, delta);
            let hp = old(self).health > 0 && old(player).position.1 > FALLOFF_Y;
            assert(host_padel == hp);
            assert(baza == resp_konec.len() + (if hp {
                1int
            } else {
                0int
            }));
            assert(ucinki@ =~= (if hp {
                seq![Ucinek::SamSebe(HOST_ID)]
            } else {
                Seq::<Ucinek>::empty()
            }) + Seq::new(padli_konec.len(), |k: int| Ucinek::SamSebe(padli_konec[k])));
            assert forall|i2: int|
                0 <= i2 < stari_cl.len() implies zveza_tick(
                stari_cl[i2],
                #[trigger] self.clients@[i2],
                delta,
            ) by {
                assert(zveza_respawna(stari_cl[i2], po_respawnu[i2], delta));
                assert(zveza_padca(po_respawnu[i2], self.clients@[i2]));
            }
            assert forall|i2: int|
                0 <= i2 < self.clients@.len() implies fiz.veljaven_din(
                (#[trigger] self.clients@[i2]).aabb_ref,
            ) by {
                assert(zveza_tick(stari_cl[i2], self.clients@[i2], delta));
                assert(old(fiz).veljaven_din(stari_cl[i2].aabb_ref));
            }
            assert forall|i2: int, j2: int|
                0 <= i2 < j2 < self.clients@.len() implies self.clients@[i2].state.id
                != self.clients@[j2].state.id by {
                assert(zveza_tick(stari_cl[i2], self.clients@[i2], delta));
                assert(zveza_tick(stari_cl[j2], self.clients@[j2], delta));
            }
            assert forall|i2: int, j2: int|
                0 <= i2 < j2 < self.clients@.len() implies self.clients@[i2].aabb_ref.idx()
                != self.clients@[j2].aabb_ref.idx() by {
                assert(zveza_tick(stari_cl[i2], self.clients@[i2], delta));
                assert(zveza_tick(stari_cl[j2], self.clients@[j2], delta));
            }
        }
        proof {
            let resp = spec_respawnani(old(self).clients@, delta);
            let padli = spec_padli(old(self).clients@);
            let hp2 = old(self).health > 0 && old(player).position.1 > FALLOFF_Y;
            let st_host: int = if hp2 {
                1int
            } else {
                0int
            };
            assert(msgs@.len() == resp.len() + st_host + 2 * padli.len());
            assert(forall|k: int|
                0 <= k < resp.len() ==> ((#[trigger] msgs@[k]) matches Odhodni::Klientu(id, m)
                    && id == resp[k] && (m@ matches MessageV::Respawn(x, y) && -200000 <= x
                    < 200000 && y == -250000)));
            assert(hp2 ==> msgs@[resp.len() as int] == Odhodni::Vsem(
                Message::PlayerDied(HOST_ID, NEZNAN_ID),
            ));
            assert(forall|k: int|
                0 <= k < padli.len() ==> (#[trigger] msgs@[resp.len() + st_host + k])
                    == Odhodni::Klientu(padli[k], Message::Attack(0)));
            assert(forall|k: int|
                0 <= k < padli.len() ==> (#[trigger] msgs@[resp.len() + st_host + padli.len()
                    + k]) == Odhodni::Vsem(Message::PlayerDied(padli[k], NEZNAN_ID)));
        }
        (msgs, ucinki)
    }
}

/// What one tick's respawn phase does to one connection.
pub open spec fn zveza_respawna(c: ServerConnection, c2: ServerConnection, delta: i32) -> bool {
    let respawnal = c.health <= 0 && c.respawn_timer - delta <= 0;
    &&& c2.state.id == c.state.id
    &&& c2.state.position.0 == c.state.position.0
    &&& c2.state.position.1 == (if respawnal {
        -1000000i32
    } else {
        c.state.position.1
    })
    &&& c2.state.rotation == c.state.rotation
    &&& c2.state.anim_frame == c.state.anim_frame
    &&& c2.state.attack_time == c.state.attack_time
    &&& c2.state.razdalja_meca == c.state.razdalja_meca
    &&& c2.user_name == c.user_name
    &&& c2.aabb_ref == c.aabb_ref
    &&& c2.inbox == c.inbox
    &&& c2.kills == c.kills
    &&& c2.health == (if respawnal {
        100i32
    } else {
        c.health
    })
    &&& (c.health <= 0 && !respawnal ==> c2.respawn_timer == c.respawn_timer - delta)
    &&& (c.health > 0 ==> c2.respawn_timer == c.respawn_timer)
    &&& (respawnal ==> c2.respawn_timer == c.respawn_timer - delta)
}

/// What one tick's fall phase does to one connection.
pub open spec fn zveza_padca(c: ServerConnection, c2: ServerConnection) -> bool {
    let padel = c.health > 0 && c.state.position.1 > FALLOFF_Y;
    &&& (padel ==> c2 == (ServerConnection { health: 0, respawn_timer: RESPAWN_TIME_MS, ..c }))
    &&& (!padel ==> c2 == c)
}

/// What one whole tick (respawn phase then fall phase) does to one
/// connection.
pub open spec fn zveza_tick(c: ServerConnection, c2: ServerConnection, delta: i32) -> bool {
    let respawnal = c.health <= 0 && c.respawn_timer - delta <= 0;
    let pos1: i32 = if respawnal {
        -1000000i32
    } else {
        c.state.position.1
    };
    let padel = c.health > 0 && c.state.position.1 > FALLOFF_Y;
    &&& c2.state.id == c.state.id
    &&& c2.state.position.0 == c.state.position.0
    &&& c2.state.position.1 == pos1
    &&& c2.user_name == c.user_name
    &&& c2.aabb_ref == c.aabb_ref
    &&& c2.inbox == c.inbox
    &&& c2.kills == c.kills
    &&& c2.health == (if padel {
        0i32
    } else if respawnal {
        100i32
    } else {
        c.health
    })
    &&& (c.health <= 0 && !respawnal ==> c2.respawn_timer == c.respawn_timer - delta)
    &&& (padel ==> c2.respawn_timer == RESPAWN_TIME_MS)
}

/// The host's own roster entry in the snapshot.
pub open spec fn spec_host_state(s: Server, player: Player) -> State {
    State {
        id: HOST_ID,
        position: player.position,
        rotation: player.rotation,
        anim_frame: (
            player.animacije@[player.trenutna_anim as int].spec_izr_frame_xy().0 as i32,
            player.animacije@[player.trenutna_anim as int].spec_izr_frame_xy().1 as i32,
        ),
        attack_time: player.attack_time,
        razdalja_meca: player.razdalja_meca,
    }
}

/// Occurrences of `x` in `s`.
pub open spec fn st_pojavitev<T>(s: Seq<T>, x: T) -> nat
    decreases s.len(),
{
    if s.len() == 0 {
        0
    } else {
        st_pojavitev(s.drop_last(), x) + if s.last() == x {
            1nat
        } else {
            0nat
        }
    }
}

proof fn lemma_st_pojavitev_push<T>(s: Seq<T>, y: T, x: T)
    ensures
        st_pojavitev(s.push(y), x) == st_pojavitev(s, x) + if y == x {
            1nat
        } else {
            0nat
        },
{
    assert(s.push(y).drop_last() =~= s);
}

proof fn lemma_st_pojavitev_update<T>(s: Seq<T>, i: int, v: T, x: T)
    requires
        0 <= i < s.len(),
    ensures
        st_pojavitev(s.update(i, v), x) + (if s[i] == x {
            1nat
        } else {
            0nat
        }) == st_pojavitev(s, x) + (if v == x {
            1nat
        } else {
            0nat
        }),
    decreases s.len(),
{
    if i == s.len() - 1 {
        assert(s.update(i, v).drop_last() =~= s.drop_last());
    } else {
        assert(s.update(i, v).drop_last() =~= s.drop_last().update(i, v));
        lemma_st_pojavitev_update(s.drop_last(), i, v, x);
    }
}

/// Swap-removing index `i` takes away exactly one occurrence of `s[i]`.
proof fn lemma_st_pojavitev_swap_remove<T>(s: Seq<T>, i: int, x: T)
    requires
        0 <= i < s.len(),
    ensures
        st_pojavitev(s.update(i, s.last()).drop_last(), x) + (if s[i] == x {
            1nat
        } else {
            0nat
        }) == st_pojavitev(s, x),
{
    lemma_st_pojavitev_update(s, i, s.last(), x);
    if i == s.len() - 1 {
        assert(s.update(i, s.last()) =~= s);
    }
}

/// The view of a sequence of leaderboard rows: each peer name as its bytes.
pub open spec fn pogled_vrstic(s: Seq<(Vec<u8>, i32)>) -> Seq<(Seq<u8>, i32)> {
    Seq::new(s.len(), |k: int| ((s[k].0)@, s[k].1))
}

/// Sorts leaderboard rows by kill count, largest first, by repeatedly
/// extracting a maximal row: the result is a descending permutation of the
/// input.
pub fn uredi_po_ubojih(vhod: Vec<(Vec<u8>, i32)>) -> (r: Vec<(Vec<u8>, i32)>)
    ensures
        forall|i: int, j: int| 0 <= i < j < r@.len() ==> r@[i].1 >= r@[j].1,
        forall|x: (Seq<u8>, i32)|
            #[trigger] st_pojavitev(pogled_vrstic(r@), x) == st_pojavitev(
                pogled_vrstic(vhod@),
                x,
            ),
        r@.len() == vhod@.len(),
{
    let mut ostalo = vhod;
    let ghost zacetek = pogled_vrstic(ostalo@);
    let mut r: Vec<(Vec<u8>, i32)> = Vec::new();
    proof {
        assert(pogled_vrstic(r@) =~= Seq::<(Seq<u8>, i32)>::empty());
    }
    while ostalo.len() > 0
        invariant
            r@.len() + ostalo@.len() == zacetek.len(),
            forall|i: int, j: int| 0 <= i < j < r@.len() ==> r@[i].1 >= r@[j].1,
            forall|i: int, j: int|
                0 <= i < r@.len() && 0 <= j < ostalo@.len() ==> r@[i].1 >= ostalo@[j].1,
            forall|x: (Seq<u8>, i32)|
                #[trigger] st_pojavitev(pogled_vrstic(r@), x) + st_pojavitev(
                    pogled_vrstic(ostalo@),
                    x,
                ) == st_pojavitev(zacetek, x),
        decreases ostalo@.len(),
    {
        let mut naj: usize = 0;
        let mut k: usize = 1;
        while k < ostalo.len()
            invariant
                ostalo@.len() > 0,
                naj < k <= ostalo@.len(),
                forall|t: int| 0 <= t < k ==> ostalo@[naj as int].1 >= ostalo@[t].1,
            decreases ostalo@.len() - k,
        {
            if ostalo[k].1 > ostalo[naj].1 {
                naj = k;
            }
            k = k + 1;
        }
        let ghost pred = pogled_vrstic(ostalo@);
        let ghost r_pred = pogled_vrstic(r@);
        let el = ostalo.swap_remove(naj);
        r.push(el);
        proof {
            assert(pogled_vrstic(ostalo@) =~= pred.update(naj as int, pred.last()).drop_last());
            assert(pogled_vrstic(r@) =~= r_pred.push(((el.0)@, el.1)));
            assert(((el.0)@, el.1) == pred[naj as int]);
            assert forall|x: (Seq<u8>, i32)|
                #[trigger] st_pojavitev(pogled_vrstic(r@), x) + st_pojavitev(
                pogled_vrstic(ostalo@),
                x,
            ) == st_pojavitev(zacetek, x) by {
                lemma_st_pojavitev_swap_remove(pred, naj as int, x);
                lemma_st_pojavitev_push(r_pred, ((el.0)@, el.1), x);
            }
        }
    }
    proof {
        assert(pogled_vrstic(ostalo@) =~= Seq::<(Seq<u8>, i32)>::empty());
        assert forall|x: (Seq<u8>, i32)|
            #[trigger] st_pojavitev(pogled_vrstic(r@), x) == st_pojavitev(zacetek, x) by {
            assert(st_pojavitev(pogled_vrstic(ostalo@), x) == 0);
        }
    }
    r
}

impl Server {
    /// Leaderboard rows: the host's and every connection's name with its
    /// kill count, sorted largest first.
    pub fn get_leaderboard_data(&self) -> (r: Vec<(Vec<u8>, i32)>)
        ensures
            r@.len() == 1 + self.clients@.len(),
            forall|i: int, j: int| 0 <= i < j < r@.len() ==> r@[i].1 >= r@[j].1,
            forall|x: (Seq<u8>, i32)|
                #[trigger] st_pojavitev(pogled_vrstic(r@), x) == st_pojavitev(
                    spec_vrstice(*self),
                    x,
                ),
    {
        let mut vrstice: Vec<(Vec<u8>, i32)> = Vec::new();
        vrstice.push((self.user_name.clone(), self.kills));
        let n = self.clients.len();
        let mut i: usize = 0;
        while i < n
            invariant
                n == self.clients@.len(),
                i <= n,
                vrstice@.len() == 1 + i,
                (vrstice@[0].0)@ == self.user_name@ && vrstice@[0].1 == self.kills,
                forall|k: int|
                    0 <= k < i ==> ((#[trigger] vrstice@[1 + k]).0)@ == self.clients@[
                        k
                    ].user_name@ && vrstice@[1 + k].1 == self.clients@[k].kills,
            decreases n - i,
        {
            vrstice.push((self.clients[i].user_name.clone(), self.clients[i].kills));
            i = i + 1;
        }
        proof {
            assert forall|k: int|
                0 <= k < pogled_vrstic(vrstice@).len() implies pogled_vrstic(vrstice@)[k]
                == spec_vrstice(*self)[k] by {
                if k >= 1 {
                    assert(((#[trigger] vrstice@[1 + (k - 1)]).0)@ == self.clients@[k
                        - 1].user_name@);
                }
            }
            assert(pogled_vrstic(vrstice@) =~= spec_vrstice(*self));
        }
        uredi_po_ubojih(vrstice)
    }
}

/// The unsorted leaderboard rows of the server, as mathematical values.
pub open spec fn spec_vrstice(s: Server) -> Seq<(Seq<u8>, i32)> {
    seq![(s.user_name@, s.kills)] + Seq::new(
        s.clients@.len(),
        |k: int| (s.clients@[k].user_name@, s.clients@[k].kills),
    )
}

/// The server's display name for an id (mathematical form).
pub open spec fn spec_ime_za_id(s: Server, id: u32) -> Seq<u8> {
    if id == HOST_ID {
        s.user_name@
    } else {
        let j = najdi_id(pogledi(s), id);
        if j >= 0 {
            s.clients@[j].user_name@
        } else {
            spec_privzeto_ime()
        }
    }
}

} // verus!
