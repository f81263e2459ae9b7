//! The wire protocol: a closed set of tagged messages with a fixed binary
//! encoding, written back-to-back onto a stream with no framing. The decoder
//! knows each variant's exact size from its tag and reports "no data yet"
//! on a short read, so partial reads are retried, never treated as errors.
//!
//! Positions travel as fixed-point world milli-units, facing directions as
//! fixed-point unit vectors, times in milliseconds; a peer's name travels
//! as its raw bytes.

use vstd::prelude::*;

verus! {

/// Fixed-point scale of one world unit: positions on the wire and in the
/// collision arena are integer milli-units.
pub const SCALE: i32 = 1000;

/// Fixed-point scale of a facing direction: a unit vector has length close
/// to this value.
pub const DIR_SCALE: i32 = 1024;

/// Reserved owner id of the host's in-process player.
pub const HOST_ID: u32 = 0;

/// Sentinel id: unassigned (before the handshake completes), and in death
/// notices the "no attacker" self-kill marker.
pub const NEZNAN_ID: u32 = 0xffff_ffff;

/// One peer's self-reported simulation state: position in milli-units,
/// facing direction as a fixed-point vector, current animation frame origin
/// in sprite-sheet pixels, time since the last swing and the sword's reach
/// in milli-units.
#[derive(Clone, Copy, Debug, PartialEq, Eq)]
pub struct State {
    pub id: u32,
    pub position: (i32, i32),
    pub rotation: (i32, i32),
    pub anim_frame: (i32, i32),
    pub attack_time: i32,
    pub razdalja_meca: i32,
}

impl State {
    pub fn prazen() -> (r: State)
        ensures
            r == (State {
                id: 0,
                position: (0, 0),
                rotation: (0, 0),
                anim_frame: (0, 0),
                attack_time: 0,
                razdalja_meca: 0,
            }),
    {
        State {
            id: 0,
            position: (0, 0),
            rotation: (0, 0),
            anim_frame: (0, 0),
            attack_time: 0,
            razdalja_meca: 0,
        }
    }
}

/// The closed message union of the protocol. A peer's name is carried as
/// raw bytes; kill counts are signed, as the leaderboard keeps them.
#[derive(Debug, Clone)]
pub enum Message {
    DodeljenId(u32),
    UserInfo(u32, Vec<u8>, i32),
    PlayerState(State),
    AllPlayersState(Vec<State>),
    Attack(i32),
    Respawn(i32, i32),
    HitParticles(i32, i32),
    PlayerDied(u32, u32),
    PlayerDisconnected(u32),
}

/// Mathematical value of a [`Message`].
pub enum MessageV {
    DodeljenId(u32),
    UserInfo(u32, Seq<u8>, i32),
    PlayerState(State),
    AllPlayersState(Seq<State>),
    Attack(i32),
    Respawn(i32, i32),
    HitParticles(i32, i32),
    PlayerDied(u32, u32),
    PlayerDisconnected(u32),
}

impl View for Message {
    type V = MessageV;

    open spec fn view(&self) -> MessageV {
        match self {
            Message::DodeljenId(id) => MessageV::DodeljenId(*id),
            Message::UserInfo(id, ime, kills) => MessageV::UserInfo(*id, ime@, *kills),
            Message::PlayerState(s) => MessageV::PlayerState(*s),
            Message::AllPlayersState(v) => MessageV::AllPlayersState(v@),
            Message::Attack(h) => MessageV::Attack(*h),
            Message::Respawn(x, y) => MessageV::Respawn(*x, *y),
            Message::HitParticles(x, y) => MessageV::HitParticles(*x, *y),
            Message::PlayerDied(id, napadalec) => MessageV::PlayerDied(*id, *napadalec),
            Message::PlayerDisconnected(id) => MessageV::PlayerDisconnected(*id),
        }
    }
}

impl MessageV {
    /// The variable-length payloads fit their length fields.
    pub open spec fn wf(self) -> bool {
        match self {
            MessageV::UserInfo(_, ime, _) => ime.len() < 0x1_0000_0000,
            MessageV::AllPlayersState(ss) => ss.len() < 0x1_0000_0000,
            _ => true,
        }
    }
}

/// Decoder outcomes that are not a message: a short buffer (transient, the
/// caller retries when more bytes arrive) or an unknown tag (malformed).
#[derive(Clone, Copy, Debug, PartialEq, Eq, Structural)]
pub enum DecodeError {
    NiPodatkov,
    Neveljavno,
}

/// Outcome classes of one non-blocking socket read, as plain values: no
/// data yet (would-block), a clean end of stream, a connection reset, or
/// any other error.
#[derive(Clone, Copy, Debug, PartialEq, Eq, Structural)]
pub enum BranjeIzid {
    BiBlokiralo,
    KonecToka,
    Ponastavitev,
    Druga,
}

/// Whether a read outcome means the peer is gone. Only a clean end of
/// stream or a reset counts as a disconnect; a would-block ends the work
/// for this frame and any other error is logged and retried, so both keep
/// the connection.
pub fn je_odklop(izid: BranjeIzid) -> (r: bool)
    ensures
        r == (izid is KonecToka || izid is Ponastavitev),
{
    match izid {
        BranjeIzid::KonecToka => true,
        BranjeIzid::Ponastavitev => true,
        BranjeIzid::BiBlokiralo => false,
        BranjeIzid::Druga => false,
    }
}

/// Little-endian bytes of a `u32`.
pub open spec fn spec_u32_le(x: u32) -> Seq<u8> {
    seq![
        (x & 0xff) as u8,
        ((x >> 8) & 0xff) as u8,
        ((x >> 16) & 0xff) as u8,
        ((x >> 24) & 0xff) as u8,
    ]
}

/// The `u32` held in four little-endian bytes of `b` at `off`.
pub open spec fn spec_u32_from(b: Seq<u8>, off: int) -> u32 {
    (b[off] as u32) | (b[off + 1] as u32) << 8 | (b[off + 2] as u32) << 16 | (b[off + 3] as u32)
        << 24
}

/// A signed value travels biased by `2^31`, so its bytes are unsigned.
pub open spec fn spec_bias(x: i32) -> u32 {
    (x + 0x8000_0000) as u32
}

pub open spec fn spec_unbias(u: u32) -> i32 {
    (u - 0x8000_0000) as i32
}

pub open spec fn spec_i32_le(x: i32) -> Seq<u8> {
    spec_u32_le(spec_bias(x))
}

pub open spec fn spec_i32_from(b: Seq<u8>, off: int) -> i32 {
    spec_unbias(spec_u32_from(b, off))
}

pub open spec fn spec_state_bytes(s: State) -> Seq<u8> {
    spec_u32_le(s.id) + spec_i32_le(s.position.0) + spec_i32_le(s.position.1) + spec_i32_le(
        s.rotation.0,
    ) + spec_i32_le(s.rotation.1) + spec_i32_le(s.anim_frame.0) + spec_i32_le(s.anim_frame.1)
        + spec_i32_le(s.attack_time) + spec_i32_le(s.razdalja_meca)
}

pub open spec fn spec_state_from(b: Seq<u8>, off: int) -> State {
    State {
        id: spec_u32_from(b, off),
        position: (spec_i32_from(b, off + 4), spec_i32_from(b, off + 8)),
        rotation: (spec_i32_from(b, off + 12), spec_i32_from(b, off + 16)),
        anim_frame: (spec_i32_from(b, off + 20), spec_i32_from(b, off + 24)),
        attack_time: spec_i32_from(b, off + 28),
        razdalja_meca: spec_i32_from(b, off + 32),
    }
}

pub open spec fn spec_states_bytes(ss: Seq<State>) -> Seq<u8>
    decreases ss.len(),
{
    if ss.len() == 0 {
        Seq::empty()
    } else {
        spec_state_bytes(ss[0]) + spec_states_bytes(ss.skip(1))
    }
}

pub open spec fn spec_states_from(b: Seq<u8>, off: int, c: int) -> Seq<State>
    decreases c,
{
    if c <= 0 {
        Seq::empty()
    } else {
        seq![spec_state_from(b, off)] + spec_states_from(b, off + 36, c - 1)
    }
}

/// The byte encoding of a message: its tag, then its fixed-layout payload.
pub open spec fn spec_encode(m: MessageV) -> Seq<u8> {
    match m {
        MessageV::DodeljenId(id) => seq![0u8] + spec_u32_le(id),
        MessageV::UserInfo(id, ime, kills) => seq![1u8] + spec_u32_le(id) + spec_u32_le(
            ime.len() as u32,
        ) + ime + spec_i32_le(kills),
        MessageV::PlayerState(s) => seq![2u8] + spec_state_bytes(s),
        MessageV::AllPlayersState(ss) => seq![3u8] + spec_u32_le(ss.len() as u32)
            + spec_states_bytes(ss),
        MessageV::Attack(h) => seq![4u8] + spec_i32_le(h),
        MessageV::Respawn(x, y) => seq![5u8] + spec_i32_le(x) + spec_i32_le(y),
        MessageV::HitParticles(x, y) => seq![6u8] + spec_i32_le(x) + spec_i32_le(y),
        MessageV::PlayerDied(id, napadalec) => seq![7u8] + spec_u32_le(id) + spec_u32_le(
            napadalec,
        ),
        MessageV::PlayerDisconnected(id) => seq![8u8] + spec_u32_le(id),
    }
}

/// What decoding the front of `b` yields: the message and how many bytes it
/// took, "no data yet" when `b` is a too-short prefix, or "malformed" on an
/// unknown tag. This function is the definition of the wire format.
pub open spec fn spec_decode(b: Seq<u8>) -> Result<(MessageV, int), DecodeError> {
    if b.len() < 1 {
        Err(DecodeError::NiPodatkov)
    } else {
        let tag = b[0];
        if tag == 0 {
            if b.len() < 5 {
                Err(DecodeError::NiPodatkov)
            } else {
                Ok((MessageV::DodeljenId(spec_u32_from(b, 1)), 5))
            }
        } else if tag == 1 {
            if b.len() < 9 {
                Err(DecodeError::NiPodatkov)
            } else {
                let dolzina = spec_u32_from(b, 5) as int;
                if b.len() < 13 + dolzina {
                    Err(DecodeError::NiPodatkov)
                } else {
                    Ok(
                        (
                            MessageV::UserInfo(
                                spec_u32_from(b, 1),
                                b.subrange(9, 9 + dolzina),
                                spec_i32_from(b, 9 + dolzina),
                            ),
                            13 + dolzina,
                        ),
                    )
                }
            }
        } else if tag == 2 {
            if b.len() < 37 {
                Err(DecodeError::NiPodatkov)
            } else {
                Ok((MessageV::PlayerState(spec_state_from(b, 1)), 37))
            }
        } else if tag == 3 {
            if b.len() < 5 {
                Err(DecodeError::NiPodatkov)
            } else {
                let stevilo = spec_u32_from(b, 1) as int;
                if b.len() < 5 + 36 * stevilo {
                    Err(DecodeError::NiPodatkov)
                } else {
                    Ok(
                        (
                            MessageV::AllPlayersState(spec_states_from(b, 5, stevilo)),
                            5 + 36 * stevilo,
                        ),
                    )
                }
            }
        } else if tag == 4 {
            if b.len() < 5 {
                Err(DecodeError::NiPodatkov)
            } else {
                Ok((MessageV::Attack(spec_i32_from(b, 1)), 5))
            }
        } else if tag == 5 {
            if b.len() < 9 {
                Err(DecodeError::NiPodatkov)
            } else {
                Ok((MessageV::Respawn(spec_i32_from(b, 1), spec_i32_from(b, 5)), 9))
            }
        } else if tag == 6 {
            if b.len() < 9 {
                Err(DecodeError::NiPodatkov)
            } else {
                Ok((MessageV::HitParticles(spec_i32_from(b, 1), spec_i32_from(b, 5)), 9))
            }
        } else if tag == 7 {
            if b.len() < 9 {
                Err(DecodeError::NiPodatkov)
            } else {
                Ok((MessageV::PlayerDied(spec_u32_from(b, 1), spec_u32_from(b, 5)), 9))
            }
        } else if tag == 8 {
            if b.len() < 5 {
                Err(DecodeError::NiPodatkov)
            } else {
                Ok((MessageV::PlayerDisconnected(spec_u32_from(b, 1)), 5))
            }
        } else {
            Err(DecodeError::Neveljavno)
        }
    }
}

fn push_u32_le(out: &mut Vec<u8>, x: u32)
    ensures
        final(out)@ == old(out)@ + spec_u32_le(x),
{
    out.push((x & 0xff) as u8);
    out.push(((x >> 8) & 0xff) as u8);
    out.push(((x >> 16) & 0xff) as u8);
    out.push(((x >> 24) & 0xff) as u8);
    proof {
        assert(out@ =~= old(out)@ + spec_u32_le(x));
    }
}

fn push_i32_le(out: &mut Vec<u8>, x: i32)
    ensures
        final(out)@ == old(out)@ + spec_i32_le(x),
{
    let biased = ((x as i64) + 0x8000_0000i64) as u32;
    proof {
        assert(biased == spec_bias(x));
    }
    push_u32_le(out, biased);
}

fn push_state(out: &mut Vec<u8>, s: &State)
    ensures
        final(out)@ == old(out)@ + spec_state_bytes(*s),
{
    push_u32_le(out, s.id);
    push_i32_le(out, s.position.0);
    push_i32_le(out, s.position.1);
    push_i32_le(out, s.rotation.0);
    push_i32_le(out, s.rotation.1);
    push_i32_le(out, s.anim_frame.0);
    push_i32_le(out, s.anim_frame.1);
    push_i32_le(out, s.attack_time);
    push_i32_le(out, s.razdalja_meca);
    proof {
        assert(out@ =~= old(out)@ + spec_state_bytes(*s));
    }
}

proof fn lemma_states_bytes_snoc(ss: Seq<State>, s: State)
    ensures
        spec_states_bytes(ss.push(s)) == spec_states_bytes(ss) + spec_state_bytes(s),
    decreases ss.len(),
{
    if ss.len() == 0 {
        assert(ss.push(s).skip(1) =~= Seq::<State>::empty());
        assert(ss.push(s)[0] == s);
        assert(spec_states_bytes(ss.push(s).skip(1)) == Seq::<u8>::empty());
        assert(spec_states_bytes(ss) == Seq::<u8>::empty());
        assert(spec_states_bytes(ss.push(s)) =~= spec_states_bytes(ss) + spec_state_bytes(s));
    } else {
        assert(ss.push(s).skip(1) =~= ss.skip(1).push(s));
        lemma_states_bytes_snoc(ss.skip(1), s);
        assert(spec_states_bytes(ss.push(s)) =~= spec_states_bytes(ss) + spec_state_bytes(s));
    }
}

/// Serializes one message into its tagged binary record.
pub fn encode(msg: &Message) -> (r: Vec<u8>)
    requires
        msg@.wf(),
    ensures
        r@ == spec_encode(msg@),
{
    let mut out: Vec<u8> = Vec::new();
    match msg {
        Message::DodeljenId(id) => {
            out.push(0u8);
            push_u32_le(&mut out, *id);
        },
        Message::UserInfo(id, ime, kills) => {
            out.push(1u8);
            push_u32_le(&mut out, *id);
            push_u32_le(&mut out, ime.len() as u32);
            out.extend_from_slice(ime.as_slice());
            push_i32_le(&mut out, *kills);
        },
        Message::PlayerState(s) => {
            out.push(2u8);
            push_state(&mut out, s);
        },
        Message::AllPlayersState(ss) => {
            out.push(3u8);
            push_u32_le(&mut out, ss.len() as u32);
            let ghost glava = out@;
            let mut i: usize = 0;
            while i < ss.len()
                invariant
                    i <= ss@.len(),
                    out@ == glava + spec_states_bytes(ss@.take(i as int)),
                decreases ss@.len() - i,
            {
                push_state(&mut out, &ss[i]);
                proof {
                    assert(ss@.take(i + 1 as int) =~= ss@.take(i as int).push(ss@[i as int]));
                    lemma_states_bytes_snoc(ss@.take(i as int), ss@[i as int]);
                }
                i = i + 1;
            }
            proof {
                assert(ss@.take(ss@.len() as int) =~= ss@);
            }
        },
        Message::Attack(h) => {
            out.push(4u8);
            push_i32_le(&mut out, *h);
        },
        Message::Respawn(x, y) => {
            out.push(5u8);
            push_i32_le(&mut out, *x);
            push_i32_le(&mut out, *y);
        },
        Message::HitParticles(x, y) => {
            out.push(6u8);
            push_i32_le(&mut out, *x);
            push_i32_le(&mut out, *y);
        },
        Message::PlayerDied(id, napadalec) => {
            out.push(7u8);
            push_u32_le(&mut out, *id);
            push_u32_le(&mut out, *napadalec);
        },
        Message::PlayerDisconnected(id) => {
            out.push(8u8);
            push_u32_le(&mut out, *id);
        },
    }
    proof {
        assert(out@ =~= spec_encode(msg@));
    }
    out
}

fn read_u32_le(bytes: &Vec<u8>, off: usize) -> (r: u32)
    requires
        off + 4 <= bytes@.len(),
        bytes@.len() <= usize::MAX,
    ensures
        r == spec_u32_from(bytes@, off as int),
{
    (bytes[off] as u32) | (bytes[off + 1] as u32) << 8u32 | (bytes[off + 2] as u32) << 16u32 | (
    bytes[off + 3] as u32) << 24u32
}

fn read_i32_le(bytes: &Vec<u8>, off: usize) -> (r: i32)
    requires
        off + 4 <= bytes@.len(),
        bytes@.len() <= usize::MAX,
    ensures
        r == spec_i32_from(bytes@, off as int),
{
    let u = read_u32_le(bytes, off);
    ((u as i64) - 0x8000_0000i64) as i32
}

fn read_state(bytes: &Vec<u8>, off: usize) -> (r: State)
    requires
        off + 36 <= bytes@.len(),
        bytes@.len() <= usize::MAX,
    ensures
        r == spec_state_from(bytes@, off as int),
{
    State {
        id: read_u32_le(bytes, off),
        position: (read_i32_le(bytes, off + 4), read_i32_le(bytes, off + 8)),
        rotation: (read_i32_le(bytes, off + 12), read_i32_le(bytes, off + 16)),
        anim_frame: (read_i32_le(bytes, off + 20), read_i32_le(bytes, off + 24)),
        attack_time: read_i32_le(bytes, off + 28),
        razdalja_meca: read_i32_le(bytes, off + 32),
    }
}

/// Decodes one message from `bytes` starting at `start`. `Ok` carries the
/// message and the offset just past it; `NiPodatkov` says the buffer holds
/// only part of a record so far (retry once more bytes arrive);
/// `Neveljavno` says the tag is not one of the protocol's.
#[verifier::rlimit(100)]
pub fn decode(bytes: &Vec<u8>, start: usize) -> (r: Result<(Message, usize), DecodeError>)
    requires
        start <= bytes@.len(),
    ensures
        ({
            let s = spec_decode(bytes@.skip(start as int));
            match r {
                Ok(p) => s == Ok::<(MessageV, int), DecodeError>((p.0@, p.1 - start)) && start
                    < p.1 <= bytes@.len(),
                Err(e) => s == Err::<(MessageV, int), DecodeError>(e),
            }
        }),
{
    let n = bytes.len();
    let ghost b = bytes@.skip(start as int);
    proof {
        assert forall|k: int| 0 <= k < b.len() implies b[k] == bytes@[start + k] by {}
    }
    if n - start < 1 {
        return Err(DecodeError::NiPodatkov);
    }
    let tag = bytes[start];
    if tag == 0 {
        if n - start < 5 {
            return Err(DecodeError::NiPodatkov);
        }
        Ok((Message::DodeljenId(read_u32_le(bytes, start + 1)), start + 5))
    } else if tag == 1 {
        if n - start < 9 {
            return Err(DecodeError::NiPodatkov);
        }
        let dolzina = read_u32_le(bytes, start + 5) as usize;
        if ((n - start) as u64) < 13u64 + (dolzina as u64) {
            return Err(DecodeError::NiPodatkov);
        }
        let mut ime: Vec<u8> = Vec::new();
        let mut i: usize = 0;
        while i < dolzina
            invariant
                i <= dolzina,
                start + 13 + dolzina <= bytes@.len(),
                bytes@.len() <= usize::MAX,
                ime@ == bytes@.subrange(start + 9 as int, start + 9 + i as int),
            decreases dolzina - i,
        {
            ime.push(bytes[start + 9 + i]);
            proof {
                assert(ime@ =~= bytes@.subrange(start + 9 as int, start + 9 + (i + 1) as int));
            }
            i = i + 1;
        }
        let kills = read_i32_le(bytes, start + 9 + dolzina);
        proof {
            assert(ime@ =~= b.subrange(9, 9 + dolzina as int));
        }
        Ok((Message::UserInfo(read_u32_le(bytes, start + 1), ime, kills), start + 13 + dolzina))
    } else if tag == 2 {
        if n - start < 37 {
            return Err(DecodeError::NiPodatkov);
        }
        Ok((Message::PlayerState(read_state(bytes, start + 1)), start + 37))
    } else if tag == 3 {
        if n - start < 5 {
            return Err(DecodeError::NiPodatkov);
        }
        let stevilo = read_u32_le(bytes, start + 1) as usize;
        if ((n - start) as u64) < 5u64 + 36u64 * (stevilo as u64) {
            return Err(DecodeError::NiPodatkov);
        }
        let mut ss: Vec<State> = Vec::new();
        let mut i: usize = 0;
        while i < stevilo
            invariant
                i <= stevilo,
                start + 5 + 36 * stevilo <= bytes@.len(),
                bytes@.len() <= usize::MAX,
                ss@ + spec_states_from(
                    bytes@,
                    start + 5 + 36 * i as int,
                    stevilo - i as int,
                ) == spec_states_from(bytes@, start + 5 as int, stevilo as int),
                ss@.len() == i,
            decreases stevilo - i,
        {
            let s = read_state(bytes, start + 5 + 36 * i);
            ss.push(s);
            proof {
                assert(ss@ + spec_states_from(
                    bytes@,
                    start + 5 + 36 * (i + 1) as int,
                    stevilo - (i + 1) as int,
                ) =~= spec_states_from(bytes@, start + 5 as int, stevilo as int));
            }
            i = i + 1;
        }
        proof {
            assert(ss@ =~= spec_states_from(bytes@, start + 5 as int, stevilo as int));
            lemma_states_from_skip(bytes@, start as int, 5, stevilo as int);
        }
        Ok((Message::AllPlayersState(ss), start + 5 + 36 * stevilo))
    } else if tag == 4 {
        if n - start < 5 {
            return Err(DecodeError::NiPodatkov);
        }
        Ok((Message::Attack(read_i32_le(bytes, start + 1)), start + 5))
    } else if tag == 5 {
        if n - start < 9 {
            return Err(DecodeError::NiPodatkov);
        }
        Ok(
            (
                Message::Respawn(read_i32_le(bytes, start + 1), read_i32_le(bytes, start + 5)),
                start + 9,
            ),
        )
    } else if tag == 6 {
        if n - start < 9 {
            return Err(DecodeError::NiPodatkov);
        }
        Ok(
            (
                Message::HitParticles(
                    read_i32_le(bytes, start + 1),
                    read_i32_le(bytes, start + 5),
                ),
                start + 9,
            ),
        )
    } else if tag == 7 {
        if n - start < 9 {
            return Err(DecodeError::NiPodatkov);
        }
        Ok(
            (
                Message::PlayerDied(read_u32_le(bytes, start + 1), read_u32_le(bytes, start + 5)),
                start + 9,
            ),
        )
    } else if tag == 8 {
        if n - start < 5 {
            return Err(DecodeError::NiPodatkov);
        }
        Ok((Message::PlayerDisconnected(read_u32_le(bytes, start + 1)), start + 5))
    } else {
        Err(DecodeError::Neveljavno)
    }
}

/// A window of `b` that equals `t` makes every sub-window of it equal the
/// matching sub-window of `t`.
proof fn lemma_podobmocje(b: Seq<u8>, off: int, lo: int, hi: int, t: Seq<u8>)
    requires
        0 <= off,
        off + t.len() <= b.len(),
        b.subrange(off, off + t.len()) == t,
        0 <= lo <= hi <= t.len(),
    ensures
        b.subrange(off + lo, off + hi) == t.subrange(lo, hi),
{
    assert forall|i: int| 0 <= i < hi - lo implies b.subrange(off + lo, off + hi)[i]
        == t.subrange(lo, hi)[i] by {
        assert(b.subrange(off, off + t.len())[lo + i] == t[lo + i]);
        assert(b[off + (lo + i)] == t[lo + i]);
    }
    assert(b.subrange(off + lo, off + hi) =~= t.subrange(lo, hi));
}

proof fn lemma_u32_povratno(x: u32, b: Seq<u8>, off: int)
    requires
        0 <= off,
        off + 4 <= b.len(),
        b.subrange(off, off + 4) == spec_u32_le(x),
    ensures
        spec_u32_from(b, off) == x,
{
    assert(b[off] == (x & 0xff) as u8);
    assert(b[off + 1] == ((x >> 8) & 0xff) as u8);
    assert(b[off + 2] == ((x >> 16) & 0xff) as u8);
    assert(b[off + 3] == ((x >> 24) & 0xff) as u8);
    assert(x & 0xff < 256 && (x >> 8) & 0xff < 256 && (x >> 16) & 0xff < 256 && (x >> 24) & 0xff
        < 256) by (bit_vector);
    assert(x == (x & 0xff) | ((x >> 8) & 0xff) << 8 | ((x >> 16) & 0xff) << 16 | ((x >> 24)
        & 0xff) << 24) by (bit_vector);
}

proof fn lemma_i32_povratno(x: i32, b: Seq<u8>, off: int)
    requires
        0 <= off,
        off + 4 <= b.len(),
        b.subrange(off, off + 4) == spec_i32_le(x),
    ensures
        spec_i32_from(b, off) == x,
{
    lemma_u32_povratno(spec_bias(x), b, off);
}

#[verifier::rlimit(60)]
proof fn lemma_state_povratno(s: State, b: Seq<u8>, off: int)
    requires
        0 <= off,
        off + 36 <= b.len(),
        b.subrange(off, off + 36) == spec_state_bytes(s),
    ensures
        spec_state_from(b, off) == s,
{
    let t = spec_state_bytes(s);
    assert(t.subrange(0, 4) =~= spec_u32_le(s.id));
    assert(t.subrange(4, 8) =~= spec_i32_le(s.position.0));
    assert(t.subrange(8, 12) =~= spec_i32_le(s.position.1));
    assert(t.subrange(12, 16) =~= spec_i32_le(s.rotation.0));
    assert(t.subrange(16, 20) =~= spec_i32_le(s.rotation.1));
    assert(t.subrange(20, 24) =~= spec_i32_le(s.anim_frame.0));
    assert(t.subrange(24, 28) =~= spec_i32_le(s.anim_frame.1));
    assert(t.subrange(28, 32) =~= spec_i32_le(s.attack_time));
    assert(t.subrange(32, 36) =~= spec_i32_le(s.razdalja_meca));
    lemma_podobmocje(b, off, 0, 4, t);
    lemma_podobmocje(b, off, 4, 8, t);
    lemma_podobmocje(b, off, 8, 12, t);
    lemma_podobmocje(b, off, 12, 16, t);
    lemma_podobmocje(b, off, 16, 20, t);
    lemma_podobmocje(b, off, 20, 24, t);
    lemma_podobmocje(b, off, 24, 28, t);
    lemma_podobmocje(b, off, 28, 32, t);
    lemma_podobmocje(b, off, 32, 36, t);
    lemma_u32_povratno(s.id, b, off);
    lemma_i32_povratno(s.position.0, b, off + 4);
    lemma_i32_povratno(s.position.1, b, off + 8);
    lemma_i32_povratno(s.rotation.0, b, off + 12);
    lemma_i32_povratno(s.rotation.1, b, off + 16);
    lemma_i32_povratno(s.anim_frame.0, b, off + 20);
    lemma_i32_povratno(s.anim_frame.1, b, off + 24);
    lemma_i32_povratno(s.attack_time, b, off + 28);
    lemma_i32_povratno(s.razdalja_meca, b, off + 32);
}

proof fn lemma_states_povratno(ss: Seq<State>, b: Seq<u8>, off: int)
    requires
        0 <= off,
        off + 36 * ss.len() <= b.len(),
        b.subrange(off, off + 36 * ss.len()) == spec_states_bytes(ss),
    ensures
        spec_states_from(b, off, ss.len() as int) == ss,
    decreases ss.len(),
{
    if ss.len() > 0 {
        lemma_states_bytes_len(ss.skip(1));
        let t = spec_states_bytes(ss);
        lemma_states_bytes_len(ss);
        assert(t.subrange(0, 36) =~= spec_state_bytes(ss[0]));
        assert(t.subrange(36, 36 * ss.len() as int) =~= spec_states_bytes(ss.skip(1)));
        lemma_podobmocje(b, off, 0, 36, t);
        lemma_podobmocje(b, off, 36, 36 * ss.len() as int, t);
        lemma_state_povratno(ss[0], b, off);
        lemma_states_povratno(ss.skip(1), b, off + 36);
        assert(spec_states_from(b, off, ss.len() as int) =~= ss);
    }
}

/// Each state record is exactly 36 bytes long.
proof fn lemma_states_bytes_len(ss: Seq<State>)
    ensures
        spec_states_bytes(ss).len() == 36 * ss.len(),
    decreases ss.len(),
{
    if ss.len() > 0 {
        lemma_states_bytes_len(ss.skip(1));
    }
}

/// Encoding any message and decoding it back from the front of the stream
/// yields the very message and consumes exactly its record, whatever bytes
/// follow it.
#[verifier::rlimit(100)]
pub proof fn lemma_kodiranje_povratno(m: MessageV, rest: Seq<u8>)
    requires
        m.wf(),
    ensures
        spec_decode(spec_encode(m) + rest) == Ok::<(MessageV, int), DecodeError>(
            (m, spec_encode(m).len() as int),
        ),
{
    let e = spec_encode(m);
    let b = e + rest;
    match m {
        MessageV::DodeljenId(id) => {
            assert(b.subrange(1, 5) =~= spec_u32_le(id));
            lemma_u32_povratno(id, b, 1);
        },
        MessageV::UserInfo(id, ime, kills) => {
            let dolzina = ime.len() as int;
            assert(e.len() == 13 + dolzina);
            assert(b.subrange(1, 5) =~= spec_u32_le(id));
            lemma_u32_povratno(id, b, 1);
            assert(b.subrange(5, 9) =~= spec_u32_le(ime.len() as u32));
            lemma_u32_povratno(ime.len() as u32, b, 5);
            assert(spec_u32_from(b, 5) as int == dolzina);
            assert(b.subrange(9, 9 + dolzina) =~= ime);
            assert(b.subrange(9 + dolzina, 13 + dolzina) =~= spec_i32_le(kills));
            lemma_i32_povratno(kills, b, 9 + dolzina);
        },
        MessageV::PlayerState(s) => {
            assert(b.subrange(1, 37) =~= spec_state_bytes(s));
            lemma_state_povratno(s, b, 1);
        },
        MessageV::AllPlayersState(ss) => {
            let stevilo = ss.len() as int;
            lemma_states_bytes_len(ss);
            assert(e.len() == 5 + 36 * stevilo);
            assert(b.subrange(1, 5) =~= spec_u32_le(ss.len() as u32));
            lemma_u32_povratno(ss.len() as u32, b, 1);
            assert(spec_u32_from(b, 1) as int == stevilo);
            assert(b.subrange(5, 5 + 36 * stevilo) =~= spec_states_bytes(ss));
            lemma_states_povratno(ss, b, 5);
        },
        MessageV::Attack(h) => {
            assert(b.subrange(1, 5) =~= spec_i32_le(h));
            lemma_i32_povratno(h, b, 1);
        },
        MessageV::Respawn(x, y) => {
            assert(b.subrange(1, 5) =~= spec_i32_le(x));
            assert(b.subrange(5, 9) =~= spec_i32_le(y));
            lemma_i32_povratno(x, b, 1);
            lemma_i32_povratno(y, b, 5);
        },
        MessageV::HitParticles(x, y) => {
            assert(b.subrange(1, 5) =~= spec_i32_le(x));
            assert(b.subrange(5, 9) =~= spec_i32_le(y));
            lemma_i32_povratno(x, b, 1);
            lemma_i32_povratno(y, b, 5);
        },
        MessageV::PlayerDied(id, napadalec) => {
            assert(b.subrange(1, 5) =~= spec_u32_le(id));
            assert(b.subrange(5, 9) =~= spec_u32_le(napadalec));
            lemma_u32_povratno(id, b, 1);
            lemma_u32_povratno(napadalec, b, 5);
        },
        MessageV::PlayerDisconnected(id) => {
            assert(b.subrange(1, 5) =~= spec_u32_le(id));
            lemma_u32_povratno(id, b, 1);
        },
    }
}

/// Parsing `c` records yields `c` records.
pub proof fn lemma_states_from_dolzina(b: Seq<u8>, off: int, c: int)
    requires
        c >= 0,
    ensures
        spec_states_from(b, off, c).len() == c,
    decreases c,
{
    if c > 0 {
        lemma_states_from_dolzina(b, off + 36, c - 1);
    }
}

/// A decoded record took at least its tag byte and at most the buffer.
pub proof fn lemma_spec_decode_meje(b: Seq<u8>)
    ensures
        spec_decode(b) matches Ok(p) ==> 1 <= p.1 <= b.len(),
{
}

/// Whatever decodes is well formed: its variable payloads fit their length
/// fields.
pub proof fn lemma_spec_decode_wf(b: Seq<u8>)
    ensures
        spec_decode(b) matches Ok(p) ==> p.0.wf(),
{
    if b.len() >= 5 && b[0] == 3 {
        lemma_states_from_dolzina(b, 5, spec_u32_from(b, 1) as int);
    }
}

/// The whole records at the front of a buffer, in order, with the bytes
/// they take: decoding stops at the first short or malformed read. The
/// fuel only bounds the recursion; any fuel beyond the buffer's length
/// gives the same answer.
pub open spec fn spec_razcep(b: Seq<u8>, gorivo: nat) -> (Seq<MessageV>, int)
    decreases gorivo,
{
    if gorivo == 0 {
        (Seq::empty(), 0)
    } else {
        match spec_decode(b) {
            Ok(p) => {
                if 0 < p.1 <= b.len() {
                    let rep = spec_razcep(b.skip(p.1), (gorivo - 1) as nat);
                    (seq![p.0] + rep.0, p.1 + rep.1)
                } else {
                    (Seq::empty(), 0)
                }
            },
            Err(_) => (Seq::empty(), 0),
        }
    }
}

/// Fuel beyond the buffer's length does not change the split.
pub proof fn lemma_razcep_gorivo(b: Seq<u8>, g1: nat, g2: nat)
    requires
        g1 > b.len(),
        g2 > b.len(),
    ensures
        spec_razcep(b, g1) == spec_razcep(b, g2),
    decreases g1 + g2,
{
    match spec_decode(b) {
        Ok(p) => {
            lemma_spec_decode_meje(b);
            if 0 < p.1 <= b.len() {
                lemma_razcep_gorivo(b.skip(p.1), (g1 - 1) as nat, (g2 - 1) as nat);
            }
        },
        Err(_) => {},
    }
}

/// Parsing states out of the tail of a buffer reads the same records as
/// parsing them out of the whole buffer at the shifted offset.
#[verifier::rlimit(30)]
proof fn lemma_states_from_skip(b: Seq<u8>, start: int, off: int, c: int)
    requires
        0 <= start,
        0 <= off,
        start + off + 36 * c <= b.len(),
        0 <= c,
    ensures
        spec_states_from(b, start + off, c) == spec_states_from(b.skip(start), off, c),
    decreases c,
{
    if c > 0 {
        lemma_states_from_skip(b, start, off + 36, c - 1);
        assert(spec_state_from(b, start + off) == spec_state_from(b.skip(start), off));
        assert(spec_states_from(b, start + off, c) =~= spec_states_from(b.skip(start), off, c));
    }
}

} // verus!
