use vstd::prelude::*;
use vstd::seq_lib::*;

verus! {

// Wire tags: one byte at the head of every frame.
pub const GAME_INFO: u8 = 0x01;
pub const PLAYER_JOIN: u8 = 0x02;
pub const PLAYER_DESTROY: u8 = 0x03;
pub const PLAYER_EVENT: u8 = 0x04;
pub const PLAYER_POS: u8 = 0x05;
pub const BULLET_CREATE: u8 = 0x06;
pub const BULLET_DESTROY: u8 = 0x07;
pub const ENEMY_CREATE: u8 = 0x08;
pub const ENEMY_DESTROY: u8 = 0x09;
pub const GAME_WON: u8 = 0x0A;
pub const GAME_LOST: u8 = 0x0B;
// Auxiliary zero-payload score notices, continuing the tag table: they ride
// the scoring relay and are echoed to participants for score display.
pub const BULLET_HIT: u8 = 0x0C;
pub const ENEMY_HIT: u8 = 0x0D;

/// A participant or projectile identity: the 8 wire bytes packed big-endian.
pub type Ident = u64;

/// Big-endian byte image of a `u32` field.
pub open spec fn u32_bytes(v: u32) -> Seq<u8> {
    seq![
        ((v >> 24) & 0xff) as u8,
        ((v >> 16) & 0xff) as u8,
        ((v >> 8) & 0xff) as u8,
        (v & 0xff) as u8,
    ]
}

/// The `u32` encoded big-endian by a 4-byte sequence.
pub open spec fn u32_of_bytes(s: Seq<u8>) -> u32
    recommends
        s.len() == 4,
{
    ((s[0] as int) * 0x1000000 + (s[1] as int) * 0x10000 + (s[2] as int) * 0x100
        + (s[3] as int)) as u32
}

/// Big-endian byte image of an identity.
pub open spec fn ident_bytes(v: Ident) -> Seq<u8> {
    seq![
        ((v >> 56) & 0xff) as u8,
        ((v >> 48) & 0xff) as u8,
        ((v >> 40) & 0xff) as u8,
        ((v >> 32) & 0xff) as u8,
        ((v >> 24) & 0xff) as u8,
        ((v >> 16) & 0xff) as u8,
        ((v >> 8) & 0xff) as u8,
        (v & 0xff) as u8,
    ]
}

/// The identity encoded big-endian by an 8-byte sequence.
pub open spec fn ident_of_bytes(s: Seq<u8>) -> Ident
    recommends
        s.len() == 8,
{
    ((s[0] as int) * 0x100000000000000 + (s[1] as int) * 0x1000000000000 + (s[2] as int)
        * 0x10000000000 + (s[3] as int) * 0x100000000 + (s[4] as int) * 0x1000000 + (s[5] as int)
        * 0x10000 + (s[6] as int) * 0x100 + (s[7] as int)) as Ident
}

pub proof fn lemma_u32_round_trip(v: u32)
    ensures
        u32_of_bytes(u32_bytes(v)) == v,
{
    let b0 = ((v >> 24) & 0xff) as u8;
    let b1 = ((v >> 16) & 0xff) as u8;
    let b2 = ((v >> 8) & 0xff) as u8;
    let b3 = (v & 0xff) as u8;
    assert(((b0 as int) * 0x1000000 + (b1 as int) * 0x10000 + (b2 as int) * 0x100 + (b3 as int))
        as u32 == v) by (bit_vector)
        requires
            b0 == ((v >> 24) & 0xff) as u8,
            b1 == ((v >> 16) & 0xff) as u8,
            b2 == ((v >> 8) & 0xff) as u8,
            b3 == (v & 0xff) as u8,
    ;
}

pub proof fn lemma_ident_round_trip(v: Ident)
    ensures
        ident_of_bytes(ident_bytes(v)) == v,
{
    let b0 = ((v >> 56) & 0xff) as u8;
    let b1 = ((v >> 48) & 0xff) as u8;
    let b2 = ((v >> 40) & 0xff) as u8;
    let b3 = ((v >> 32) & 0xff) as u8;
    let b4 = ((v >> 24) & 0xff) as u8;
    let b5 = ((v >> 16) & 0xff) as u8;
    let b6 = ((v >> 8) & 0xff) as u8;
    let b7 = (v & 0xff) as u8;
    assert(((b0 as int) * 0x100000000000000 + (b1 as int) * 0x1000000000000 + (b2 as int)
        * 0x10000000000 + (b3 as int) * 0x100000000 + (b4 as int) * 0x1000000 + (b5 as int)
        * 0x10000 + (b6 as int) * 0x100 + (b7 as int)) as u64 == v) by (bit_vector)
        requires
            b0 == ((v >> 56) & 0xff) as u8,
            b1 == ((v >> 48) & 0xff) as u8,
            b2 == ((v >> 40) & 0xff) as u8,
            b3 == ((v >> 32) & 0xff) as u8,
            b4 == ((v >> 24) & 0xff) as u8,
            b5 == ((v >> 16) & 0xff) as u8,
            b6 == ((v >> 8) & 0xff) as u8,
            b7 == (v & 0xff) as u8,
    ;
}

/// Append the big-endian image of `v` to `out`.
pub fn write_u32(out: &mut Vec<u8>, v: u32)
    ensures
        final(out)@ == old(out)@ + u32_bytes(v),
{
    proof {
        assert((v >> 24) & 0xff < 256 && (v >> 16) & 0xff < 256 && (v >> 8) & 0xff < 256 && v
            & 0xff < 256) by (bit_vector);
    }
    out.push(((v >> 24) & 0xff) as u8);
    out.push(((v >> 16) & 0xff) as u8);
    out.push(((v >> 8) & 0xff) as u8);
    out.push((v & 0xff) as u8);
    proof {
        assert_seqs_equal!(out@ == old(out)@ + u32_bytes(v));
    }
}

/// Append the big-endian image of an identity to `out`.
pub fn write_ident(out: &mut Vec<u8>, v: Ident)
    ensures
        final(out)@ == old(out)@ + ident_bytes(v),
{
    proof {
        assert((v >> 56) & 0xff < 256 && (v >> 48) & 0xff < 256 && (v >> 40) & 0xff < 256 && (v
            >> 32) & 0xff < 256 && (v >> 24) & 0xff < 256 && (v >> 16) & 0xff < 256 && (v >> 8)
            & 0xff < 256 && v & 0xff < 256) by (bit_vector);
    }
    out.push(((v >> 56) & 0xff) as u8);
    out.push(((v >> 48) & 0xff) as u8);
    out.push(((v >> 40) & 0xff) as u8);
    out.push(((v >> 32) & 0xff) as u8);
    out.push(((v >> 24) & 0xff) as u8);
    out.push(((v >> 16) & 0xff) as u8);
    out.push(((v >> 8) & 0xff) as u8);
    out.push((v & 0xff) as u8);
    proof {
        assert_seqs_equal!(out@ == old(out)@ + ident_bytes(v));
    }
}

/// Read one byte at `pos`.
pub fn read_u8(buf: &Vec<u8>, pos: usize) -> (r: u8)
    requires
        pos < buf@.len(),
    ensures
        r == buf@[pos as int],
{
    buf[pos]
}

/// Read a big-endian `u32` starting at `pos`.
pub fn read_u32(buf: &Vec<u8>, pos: usize) -> (r: u32)
    requires
        pos + 4 <= buf@.len(),
    ensures
        r == u32_of_bytes(buf@.subrange(pos as int, pos as int + 4)),
{
    // An exec length read bounds the view's length by usize, so the index
    // arithmetic below cannot overflow.
    let _n = buf.len();
    let b0 = buf[pos] as u32;
    let b1 = buf[pos + 1] as u32;
    let b2 = buf[pos + 2] as u32;
    let b3 = buf[pos + 3] as u32;
    b0 * 0x1000000 + b1 * 0x10000 + b2 * 0x100 + b3
}

/// Read a big-endian identity starting at `pos`.
pub fn read_ident(buf: &Vec<u8>, pos: usize) -> (r: Ident)
    requires
        pos + 8 <= buf@.len(),
    ensures
        r == ident_of_bytes(buf@.subrange(pos as int, pos as int + 8)),
{
    // An exec length read bounds the view's length by usize, so the index
    // arithmetic below cannot overflow.
    let _n = buf.len();
    let b0 = buf[pos] as u64;
    let b1 = buf[pos + 1] as u64;
    let b2 = buf[pos + 2] as u64;
    let b3 = buf[pos + 3] as u64;
    let b4 = buf[pos + 4] as u64;
    let b5 = buf[pos + 5] as u64;
    let b6 = buf[pos + 6] as u64;
    let b7 = buf[pos + 7] as u64;
    b0 * 0x100000000000000 + b1 * 0x1000000000000 + b2 * 0x10000000000 + b3 * 0x100000000 + b4
        * 0x1000000 + b5 * 0x10000 + b6 * 0x100 + b7
}


/// A participant input sub-event carried by a `PLAYER_EVENT` frame.
#[derive(Clone, Copy, Debug, PartialEq, Eq, Structural)]
pub enum PlayerEvent {
    Fire,
    Exit,
}

/// Why a byte sequence failed to decode.
#[derive(Clone, Copy, Debug, PartialEq, Eq, Structural)]
pub enum DecodeError {
    /// The buffer ends before the frame the tag promises is complete.
    NeedMoreData,
    /// The tag byte, or an event code inside the frame, is not in the table.
    InvalidTag,
}

/// The wire byte of a participant event code.
pub open spec fn event_byte(e: PlayerEvent) -> u8 {
    match e {
        PlayerEvent::Fire => 0,
        PlayerEvent::Exit => 1,
    }
}

impl PlayerEvent {
    /// The event code this event is written as on the wire.
    pub fn parse(&self) -> (r: u8)
        ensures
            r == event_byte(*self),
    {
        match self {
            Self::Fire => 0,
            Self::Exit => 1,
        }
    }

    /// The event a wire code stands for; codes outside the table are refused.
    pub fn get(value: u8) -> (r: Result<Self, DecodeError>)
        ensures
            value == 0 ==> r == Ok::<Self, DecodeError>(PlayerEvent::Fire),
            value == 1 ==> r == Ok::<Self, DecodeError>(PlayerEvent::Exit),
            value > 1 ==> r == Err::<Self, DecodeError>(DecodeError::InvalidTag),
    {
        match value {
            0 => Ok(Self::Fire),
            1 => Ok(Self::Exit),
            _ => Err(DecodeError::InvalidTag),
        }
    }
}

/// One authoritative message of the wire protocol.
#[derive(Clone, Debug, PartialEq)]
pub enum Packet {
    /// Match start: field size and the team roster.
    GameInfo { width: u32, height: u32, pids: Vec<Ident> },
    PlayerJoin(Ident),
    PlayerDestroy(Ident),
    PlayerEvent { pid: Ident, event: PlayerEvent },
    PlayerPos { pid: Ident, x: u32, y: u32 },
    BulletCreate { id: Ident, x: u32, y: u32 },
    BulletDestroy(Ident),
    EnemyCreate { id: Ident, x: u32, y: u32 },
    EnemyDestroy(Ident),
    GameWon,
    GameLost,
    /// Score notice: a projectile this team fired hit the enemy base.
    BulletHit,
    /// Score notice: an incoming projectile hit this team's base.
    EnemyHit,
}

/// The mathematical image of a `Packet`: rosters as sequences.
pub enum PacketV {
    GameInfo { width: u32, height: u32, pids: Seq<Ident> },
    PlayerJoin(Ident),
    PlayerDestroy(Ident),
    PlayerEvent { pid: Ident, event: PlayerEvent },
    PlayerPos { pid: Ident, x: u32, y: u32 },
    BulletCreate { id: Ident, x: u32, y: u32 },
    BulletDestroy(Ident),
    EnemyCreate { id: Ident, x: u32, y: u32 },
    EnemyDestroy(Ident),
    GameWon,
    GameLost,
    BulletHit,
    EnemyHit,
}

impl View for Packet {
    type V = PacketV;

    open spec fn view(&self) -> PacketV {
        match self {
            Packet::GameInfo { width, height, pids } => PacketV::GameInfo {
                width: *width,
                height: *height,
                pids: pids@,
            },
            Packet::PlayerJoin(pid) => PacketV::PlayerJoin(*pid),
            Packet::PlayerDestroy(pid) => PacketV::PlayerDestroy(*pid),
            Packet::PlayerEvent { pid, event } => PacketV::PlayerEvent {
                pid: *pid,
                event: *event,
            },
            Packet::PlayerPos { pid, x, y } => PacketV::PlayerPos { pid: *pid, x: *x, y: *y },
            Packet::BulletCreate { id, x, y } => PacketV::BulletCreate { id: *id, x: *x, y: *y },
            Packet::BulletDestroy(id) => PacketV::BulletDestroy(*id),
            Packet::EnemyCreate { id, x, y } => PacketV::EnemyCreate { id: *id, x: *x, y: *y },
            Packet::EnemyDestroy(id) => PacketV::EnemyDestroy(*id),
            Packet::GameWon => PacketV::GameWon,
            Packet::GameLost => PacketV::GameLost,
            Packet::BulletHit => PacketV::BulletHit,
            Packet::EnemyHit => PacketV::EnemyHit,
        }
    }
}

impl PacketV {
    /// A message the codec can frame: the roster fits its count byte.
    pub open spec fn wf(self) -> bool {
        match self {
            PacketV::GameInfo { pids, .. } => pids.len() <= 255,
            _ => true,
        }
    }
}

impl Packet {
    /// A message the codec can frame: the roster fits its count byte.
    pub open spec fn wf(self) -> bool {
        self@.wf()
    }
}

/// Concatenated big-endian images of a roster, in order.
pub open spec fn idents_bytes(ps: Seq<Ident>) -> Seq<u8>
    decreases ps.len(),
{
    if ps.len() == 0 {
        Seq::empty()
    } else {
        ident_bytes(ps[0]) + idents_bytes(ps.drop_first())
    }
}

/// The roster encoded by a sequence of 8-byte chunks.
pub open spec fn idents_of_bytes(s: Seq<u8>) -> Seq<Ident>
    decreases s.len(),
{
    if s.len() < 8 {
        Seq::empty()
    } else {
        seq![ident_of_bytes(s.take(8))] + idents_of_bytes(s.skip(8))
    }
}

pub proof fn lemma_idents_bytes_len(ps: Seq<Ident>)
    ensures
        idents_bytes(ps).len() == 8 * ps.len(),
    decreases ps.len(),
{
    if ps.len() > 0 {
        lemma_idents_bytes_len(ps.drop_first());
    }
}

pub proof fn lemma_idents_bytes_push(ps: Seq<Ident>, x: Ident)
    ensures
        idents_bytes(ps.push(x)) == idents_bytes(ps) + ident_bytes(x),
    decreases ps.len(),
{
    if ps.len() == 0 {
        assert(ps.push(x).drop_first() =~= Seq::<Ident>::empty());
        assert(ps.push(x)[0] == x);
        assert(idents_bytes(ps.push(x)) == ident_bytes(x) + idents_bytes(Seq::<Ident>::empty()));
        assert(ident_bytes(x) + Seq::<u8>::empty() =~= ident_bytes(x));
        assert(idents_bytes(ps) + ident_bytes(x) =~= ident_bytes(x));
    } else {
        assert(ps.push(x).drop_first() =~= ps.drop_first().push(x));
        assert(ps.push(x)[0] == ps[0]);
        lemma_idents_bytes_push(ps.drop_first(), x);
        assert(idents_bytes(ps.push(x)) == ident_bytes(ps[0]) + (idents_bytes(ps.drop_first())
            + ident_bytes(x)));
        assert(ident_bytes(ps[0]) + (idents_bytes(ps.drop_first()) + ident_bytes(x)) =~= (
        ident_bytes(ps[0]) + idents_bytes(ps.drop_first())) + ident_bytes(x));
        assert(idents_bytes(ps) == ident_bytes(ps[0]) + idents_bytes(ps.drop_first()));
    }
}

pub proof fn lemma_idents_of_bytes_snoc(s: Seq<u8>, c: Seq<u8>)
    requires
        s.len() % 8 == 0,
        c.len() == 8,
    ensures
        idents_of_bytes(s + c) == idents_of_bytes(s).push(ident_of_bytes(c)),
    decreases s.len(),
{
    if s.len() == 0 {
        assert((s + c).take(8) =~= c);
        assert((s + c).skip(8) =~= Seq::<u8>::empty());
        assert(idents_of_bytes(s + c) == seq![ident_of_bytes(c)] + idents_of_bytes(
            Seq::<u8>::empty(),
        ));
        assert(seq![ident_of_bytes(c)] + Seq::<Ident>::empty() =~= seq![ident_of_bytes(c)]);
        assert(idents_of_bytes(s).push(ident_of_bytes(c)) =~= seq![ident_of_bytes(c)]);
    } else {
        assert(s.len() >= 8);
        assert((s + c).take(8) =~= s.take(8));
        assert((s + c).skip(8) =~= s.skip(8) + c);
        assert(s.skip(8).len() % 8 == 0) by {
            assert(s.skip(8).len() == s.len() - 8);
        }
        lemma_idents_of_bytes_snoc(s.skip(8), c);
        assert(idents_of_bytes(s + c) == seq![ident_of_bytes(s.take(8))] + idents_of_bytes(
            s.skip(8),
        ).push(ident_of_bytes(c)));
        assert(seq![ident_of_bytes(s.take(8))] + idents_of_bytes(s.skip(8)).push(
            ident_of_bytes(c),
        ) =~= (seq![ident_of_bytes(s.take(8))] + idents_of_bytes(s.skip(8))).push(
            ident_of_bytes(c),
        ));
        assert(idents_of_bytes(s) == seq![ident_of_bytes(s.take(8))] + idents_of_bytes(s.skip(8)));
    }
}

pub proof fn lemma_idents_round_trip(ps: Seq<Ident>)
    ensures
        idents_of_bytes(idents_bytes(ps)) == ps,
    decreases ps.len(),
{
    if ps.len() == 0 {
    } else {
        let b = idents_bytes(ps);
        lemma_idents_bytes_len(ps);
        lemma_idents_bytes_len(ps.drop_first());
        assert(b.take(8) =~= ident_bytes(ps[0]));
        assert(b.skip(8) =~= idents_bytes(ps.drop_first()));
        lemma_ident_round_trip(ps[0]);
        lemma_idents_round_trip(ps.drop_first());
        assert_seqs_equal!(idents_of_bytes(idents_bytes(ps)) == ps);
    }
}


/// What a byte sequence holds at its head, mathematically: a complete frame
/// and its length, too few bytes for one, or a code outside the table.
pub enum DecodedV {
    Msg(PacketV, int),
    Short,
    BadTag,
}

/// Byte image of a message: the tag, then the fixed-shape payload.
pub open spec fn spec_encode(p: PacketV) -> Seq<u8> {
    match p {
        PacketV::GameInfo { width, height, pids } => seq![GAME_INFO] + u32_bytes(width)
            + u32_bytes(height) + seq![pids.len() as u8] + idents_bytes(pids),
        PacketV::PlayerJoin(pid) => seq![PLAYER_JOIN] + ident_bytes(pid),
        PacketV::PlayerDestroy(pid) => seq![PLAYER_DESTROY] + ident_bytes(pid),
        PacketV::PlayerEvent { pid, event } => seq![PLAYER_EVENT] + ident_bytes(pid)
            + seq![event_byte(event)],
        PacketV::PlayerPos { pid, x, y } => seq![PLAYER_POS] + ident_bytes(pid) + u32_bytes(x)
            + u32_bytes(y),
        PacketV::BulletCreate { id, x, y } => seq![BULLET_CREATE] + ident_bytes(id) + u32_bytes(x)
            + u32_bytes(y),
        PacketV::BulletDestroy(id) => seq![BULLET_DESTROY] + ident_bytes(id),
        PacketV::EnemyCreate { id, x, y } => seq![ENEMY_CREATE] + ident_bytes(id) + u32_bytes(x)
            + u32_bytes(y),
        PacketV::EnemyDestroy(id) => seq![ENEMY_DESTROY] + ident_bytes(id),
        PacketV::GameWon => seq![GAME_WON],
        PacketV::GameLost => seq![GAME_LOST],
        PacketV::BulletHit => seq![BULLET_HIT],
        PacketV::EnemyHit => seq![ENEMY_HIT],
    }
}

/// The message at the head of a byte sequence. Each field width is fixed by
/// the tag, so decoding never over-reads.
pub open spec fn spec_decode(s: Seq<u8>) -> DecodedV {
    if s.len() < 1 {
        DecodedV::Short
    } else {
        let tag = s[0];
        if tag == GAME_INFO {
            if s.len() < 10 {
                DecodedV::Short
            } else {
                let n = s[9] as int;
                if s.len() < 10 + 8 * n {
                    DecodedV::Short
                } else {
                    DecodedV::Msg(
                        PacketV::GameInfo {
                            width: u32_of_bytes(s.subrange(1, 5)),
                            height: u32_of_bytes(s.subrange(5, 9)),
                            pids: idents_of_bytes(s.subrange(10, 10 + 8 * n)),
                        },
                        10 + 8 * n,
                    )
                }
            }
        } else if tag == PLAYER_JOIN {
            if s.len() < 9 {
                DecodedV::Short
            } else {
                DecodedV::Msg(PacketV::PlayerJoin(ident_of_bytes(s.subrange(1, 9))), 9)
            }
        } else if tag == PLAYER_DESTROY {
            if s.len() < 9 {
                DecodedV::Short
            } else {
                DecodedV::Msg(PacketV::PlayerDestroy(ident_of_bytes(s.subrange(1, 9))), 9)
            }
        } else if tag == PLAYER_EVENT {
            if s.len() < 10 {
                DecodedV::Short
            } else if s[9] == 0 {
                DecodedV::Msg(
                    PacketV::PlayerEvent {
                        pid: ident_of_bytes(s.subrange(1, 9)),
                        event: PlayerEvent::Fire,
                    },
                    10,
                )
            } else if s[9] == 1 {
                DecodedV::Msg(
                    PacketV::PlayerEvent {
                        pid: ident_of_bytes(s.subrange(1, 9)),
                        event: PlayerEvent::Exit,
                    },
                    10,
                )
            } else {
                DecodedV::BadTag
            }
        } else if tag == PLAYER_POS {
            if s.len() < 17 {
                DecodedV::Short
            } else {
                DecodedV::Msg(
                    PacketV::PlayerPos {
                        pid: ident_of_bytes(s.subrange(1, 9)),
                        x: u32_of_bytes(s.subrange(9, 13)),
                        y: u32_of_bytes(s.subrange(13, 17)),
                    },
                    17,
                )
            }
        } else if tag == BULLET_CREATE {
            if s.len() < 17 {
                DecodedV::Short
            } else {
                DecodedV::Msg(
                    PacketV::BulletCreate {
                        id: ident_of_bytes(s.subrange(1, 9)),
                        x: u32_of_bytes(s.subrange(9, 13)),
                        y: u32_of_bytes(s.subrange(13, 17)),
                    },
                    17,
                )
            }
        } else if tag == BULLET_DESTROY {
            if s.len() < 9 {
                DecodedV::Short
            } else {
                DecodedV::Msg(PacketV::BulletDestroy(ident_of_bytes(s.subrange(1, 9))), 9)
            }
        } else if tag == ENEMY_CREATE {
            if s.len() < 17 {
                DecodedV::Short
            } else {
                DecodedV::Msg(
                    PacketV::EnemyCreate {
                        id: ident_of_bytes(s.subrange(1, 9)),
                        x: u32_of_bytes(s.subrange(9, 13)),
                        y: u32_of_bytes(s.subrange(13, 17)),
                    },
                    17,
                )
            }
        } else if tag == ENEMY_DESTROY {
            if s.len() < 9 {
                DecodedV::Short
            } else {
                DecodedV::Msg(PacketV::EnemyDestroy(ident_of_bytes(s.subrange(1, 9))), 9)
            }
        } else if tag == GAME_WON {
            DecodedV::Msg(PacketV::GameWon, 1)
        } else if tag == GAME_LOST {
            DecodedV::Msg(PacketV::GameLost, 1)
        } else if tag == BULLET_HIT {
            DecodedV::Msg(PacketV::BulletHit, 1)
        } else if tag == ENEMY_HIT {
            DecodedV::Msg(PacketV::EnemyHit, 1)
        } else {
            DecodedV::BadTag
        }
    }
}


impl Packet {
    /// Encode this message as its wire bytes. Total and deterministic: the
    /// result is exactly `spec_encode` of the message.
    pub fn parse(self) -> (r: Vec<u8>)
        requires
            self.wf(),
        ensures
            r@ == spec_encode(self@),
    {
        let ghost gp = self@;
        let mut raw: Vec<u8> = Vec::new();
        match self {
            Self::GameInfo { width, height, pids } => {
                raw.push(GAME_INFO);
                write_u32(&mut raw, width);
                write_u32(&mut raw, height);
                raw.push(pids.len() as u8);
                let ghost head = raw@;
                let mut i: usize = 0;
                while i < pids.len()
                    invariant
                        i <= pids@.len(),
                        raw@ == head + idents_bytes(pids@.take(i as int)),
                    decreases pids@.len() - i,
                {
                    write_ident(&mut raw, pids[i]);
                    proof {
                        assert(pids@.take(i + 1) =~= pids@.take(i as int).push(pids@[i as int]));
                        lemma_idents_bytes_push(pids@.take(i as int), pids@[i as int]);
                        assert(head + idents_bytes(pids@.take(i as int)) + ident_bytes(
                            pids@[i as int],
                        ) =~= head + idents_bytes(pids@.take(i + 1)));
                    }
                    i = i + 1;
                }
                proof {
                    assert(pids@.take(pids@.len() as int) =~= pids@);
                    assert_seqs_equal!(raw@ == spec_encode(gp));
                }
            },
            Self::PlayerJoin(pid) => {
                raw.push(PLAYER_JOIN);
                write_ident(&mut raw, pid);
                proof {
                    assert_seqs_equal!(raw@ == spec_encode(gp));
                }
            },
            Self::PlayerDestroy(pid) => {
                raw.push(PLAYER_DESTROY);
                write_ident(&mut raw, pid);
                proof {
                    assert_seqs_equal!(raw@ == spec_encode(gp));
                }
            },
            Self::PlayerEvent { pid, event } => {
                raw.push(PLAYER_EVENT);
                write_ident(&mut raw, pid);
                raw.push(event.parse());
                proof {
                    assert_seqs_equal!(raw@ == spec_encode(gp));
                }
            },
            Self::PlayerPos { pid, x, y } => {
                raw.push(PLAYER_POS);
                write_ident(&mut raw, pid);
                write_u32(&mut raw, x);
                write_u32(&mut raw, y);
                proof {
                    assert_seqs_equal!(raw@ == spec_encode(gp));
                }
            },
            Self::BulletCreate { id, x, y } => {
                raw.push(BULLET_CREATE);
                write_ident(&mut raw, id);
                write_u32(&mut raw, x);
                write_u32(&mut raw, y);
                proof {
                    assert_seqs_equal!(raw@ == spec_encode(gp));
                }
            },
            Self::BulletDestroy(id) => {
                raw.push(BULLET_DESTROY);
                write_ident(&mut raw, id);
                proof {
                    assert_seqs_equal!(raw@ == spec_encode(gp));
                }
            },
            Self::EnemyCreate { id, x, y } => {
                raw.push(ENEMY_CREATE);
                write_ident(&mut raw, id);
                write_u32(&mut raw, x);
                write_u32(&mut raw, y);
                proof {
                    assert_seqs_equal!(raw@ == spec_encode(gp));
                }
            },
            Self::EnemyDestroy(id) => {
                raw.push(ENEMY_DESTROY);
                write_ident(&mut raw, id);
                proof {
                    assert_seqs_equal!(raw@ == spec_encode(gp));
                }
            },
            Self::GameWon => {
                raw.push(GAME_WON);
                proof {
                    assert_seqs_equal!(raw@ == spec_encode(gp));
                }
            },
            Self::GameLost => {
                raw.push(GAME_LOST);
                proof {
                    assert_seqs_equal!(raw@ == spec_encode(gp));
                }
            },
            Self::BulletHit => {
                raw.push(BULLET_HIT);
                proof {
                    assert_seqs_equal!(raw@ == spec_encode(gp));
                }
            },
            Self::EnemyHit => {
                raw.push(ENEMY_HIT);
                proof {
                    assert_seqs_equal!(raw@ == spec_encode(gp));
                }
            },
        }
        raw
    }
}


impl Packet {
    /// Decode the frame at the head of `buf`: the message and how many bytes
    /// it occupied, or why no message could be taken. Exactly `spec_decode`.
    pub fn read_from(buf: &Vec<u8>) -> (r: Result<(Packet, usize), DecodeError>)
        ensures
            match r {
                Ok(pn) => spec_decode(buf@) == DecodedV::Msg(pn.0@, pn.1 as int) && pn.0.wf()
                    && pn.1 <= buf@.len(),
                Err(DecodeError::NeedMoreData) => spec_decode(buf@) == DecodedV::Short,
                Err(DecodeError::InvalidTag) => spec_decode(buf@) == DecodedV::BadTag,
            },
    {
        let len = buf.len();
        if len < 1 {
            return Err(DecodeError::NeedMoreData);
        }
        let tag = buf[0];
        if tag == GAME_INFO {
            if len < 10 {
                return Err(DecodeError::NeedMoreData);
            }
            let width = read_u32(buf, 1);
            let height = read_u32(buf, 5);
            let n = buf[9] as usize;
            if len < 10 + 8 * n {
                return Err(DecodeError::NeedMoreData);
            }
            let mut pids: Vec<Ident> = Vec::new();
            let mut k: usize = 0;
            while k < n
                invariant
                    k <= n,
                    n <= 255,
                    buf@.len() >= 10 + 8 * n,
                    pids@.len() == k,
                    pids@ == idents_of_bytes(buf@.subrange(10, 10 + 8 * k as int)),
                decreases n - k,
            {
                let id = read_ident(buf, 10 + 8 * k);
                proof {
                    let block = buf@.subrange(10, 10 + 8 * k as int);
                    let chunk = buf@.subrange(10 + 8 * k as int, 10 + 8 * k as int + 8);
                    assert(buf@.subrange(10, 10 + 8 * (k + 1)) =~= block + chunk);
                    lemma_idents_of_bytes_snoc(block, chunk);
                }
                pids.push(id);
                k = k + 1;
            }
            return Ok((Packet::GameInfo { width, height, pids }, 10 + 8 * n));
        }
        if tag == PLAYER_JOIN {
            if len < 9 {
                return Err(DecodeError::NeedMoreData);
            }
            return Ok((Packet::PlayerJoin(read_ident(buf, 1)), 9));
        }
        if tag == PLAYER_DESTROY {
            if len < 9 {
                return Err(DecodeError::NeedMoreData);
            }
            return Ok((Packet::PlayerDestroy(read_ident(buf, 1)), 9));
        }
        if tag == PLAYER_EVENT {
            if len < 10 {
                return Err(DecodeError::NeedMoreData);
            }
            let pid = read_ident(buf, 1);
            match PlayerEvent::get(buf[9]) {
                Ok(event) => {
                    return Ok((Packet::PlayerEvent { pid, event }, 10));
                },
                Err(_) => {
                    return Err(DecodeError::InvalidTag);
                },
            }
        }
        if tag == PLAYER_POS {
            if len < 17 {
                return Err(DecodeError::NeedMoreData);
            }
            let pid = read_ident(buf, 1);
            let x = read_u32(buf, 9);
            let y = read_u32(buf, 13);
            return Ok((Packet::PlayerPos { pid, x, y }, 17));
        }
        if tag == BULLET_CREATE {
            if len < 17 {
                return Err(DecodeError::NeedMoreData);
            }
            let id = read_ident(buf, 1);
            let x = read_u32(buf, 9);
            let y = read_u32(buf, 13);
            return Ok((Packet::BulletCreate { id, x, y }, 17));
        }
        if tag == BULLET_DESTROY {
            if len < 9 {
                return Err(DecodeError::NeedMoreData);
            }
            return Ok((Packet::BulletDestroy(read_ident(buf, 1)), 9));
        }
        if tag == ENEMY_CREATE {
            if len < 17 {
                return Err(DecodeError::NeedMoreData);
            }
            let id = read_ident(buf, 1);
            let x = read_u32(buf, 9);
            let y = read_u32(buf, 13);
            return Ok((Packet::EnemyCreate { id, x, y }, 17));
        }
        if tag == ENEMY_DESTROY {
            if len < 9 {
                return Err(DecodeError::NeedMoreData);
            }
            return Ok((Packet::EnemyDestroy(read_ident(buf, 1)), 9));
        }
        if tag == GAME_WON {
            return Ok((Packet::GameWon, 1));
        }
        if tag == GAME_LOST {
            return Ok((Packet::GameLost, 1));
        }
        if tag == BULLET_HIT {
            return Ok((Packet::BulletHit, 1));
        }
        if tag == ENEMY_HIT {
            return Ok((Packet::EnemyHit, 1));
        }
        Err(DecodeError::InvalidTag)
    }
}


/// Round trip: decoding the encoding of any frameable message yields that
/// message back, consuming exactly its bytes.
pub proof fn lemma_round_trip(p: PacketV)
    requires
        p.wf(),
    ensures
        spec_decode(spec_encode(p)) == DecodedV::Msg(p, spec_encode(p).len() as int),
{
    let e = spec_encode(p);
    match p {
        PacketV::GameInfo { width, height, pids } => {
            lemma_idents_bytes_len(pids);
            assert(e.len() == 10 + 8 * pids.len());
            assert(e[0] == GAME_INFO);
            assert(e[9] == pids.len() as u8);
            assert(e.subrange(1, 5) =~= u32_bytes(width));
            assert(e.subrange(5, 9) =~= u32_bytes(height));
            assert(e.subrange(10, 10 + 8 * pids.len() as int) =~= idents_bytes(pids));
            lemma_u32_round_trip(width);
            lemma_u32_round_trip(height);
            lemma_idents_round_trip(pids);
        },
        PacketV::PlayerJoin(pid) => {
            assert(e[0] == PLAYER_JOIN);
            assert(e.subrange(1, 9) =~= ident_bytes(pid));
            lemma_ident_round_trip(pid);
        },
        PacketV::PlayerDestroy(pid) => {
            assert(e[0] == PLAYER_DESTROY);
            assert(e.subrange(1, 9) =~= ident_bytes(pid));
            lemma_ident_round_trip(pid);
        },
        PacketV::PlayerEvent { pid, event } => {
            assert(e[0] == PLAYER_EVENT);
            assert(e[9] == event_byte(event));
            assert(e.subrange(1, 9) =~= ident_bytes(pid));
            lemma_ident_round_trip(pid);
        },
        PacketV::PlayerPos { pid, x, y } => {
            assert(e[0] == PLAYER_POS);
            assert(e.subrange(1, 9) =~= ident_bytes(pid));
            assert(e.subrange(9, 13) =~= u32_bytes(x));
            assert(e.subrange(13, 17) =~= u32_bytes(y));
            lemma_ident_round_trip(pid);
            lemma_u32_round_trip(x);
            lemma_u32_round_trip(y);
        },
        PacketV::BulletCreate { id, x, y } => {
            assert(e[0] == BULLET_CREATE);
            assert(e.subrange(1, 9) =~= ident_bytes(id));
            assert(e.subrange(9, 13) =~= u32_bytes(x));
            assert(e.subrange(13, 17) =~= u32_bytes(y));
            lemma_ident_round_trip(id);
            lemma_u32_round_trip(x);
            lemma_u32_round_trip(y);
        },
        PacketV::BulletDestroy(id) => {
            assert(e[0] == BULLET_DESTROY);
            assert(e.subrange(1, 9) =~= ident_bytes(id));
            lemma_ident_round_trip(id);
        },
        PacketV::EnemyCreate { id, x, y } => {
            assert(e[0] == ENEMY_CREATE);
            assert(e.subrange(1, 9) =~= ident_bytes(id));
            assert(e.subrange(9, 13) =~= u32_bytes(x));
            assert(e.subrange(13, 17) =~= u32_bytes(y));
            lemma_ident_round_trip(id);
            lemma_u32_round_trip(x);
            lemma_u32_round_trip(y);
        },
        PacketV::EnemyDestroy(id) => {
            assert(e[0] == ENEMY_DESTROY);
            assert(e.subrange(1, 9) =~= ident_bytes(id));
            lemma_ident_round_trip(id);
        },
        PacketV::GameWon => {
            assert(e[0] == GAME_WON);
        },
        PacketV::GameLost => {
            assert(e[0] == GAME_LOST);
        },
        PacketV::BulletHit => {
            assert(e[0] == BULLET_HIT);
        },
        PacketV::EnemyHit => {
            assert(e[0] == ENEMY_HIT);
        },
    }
}

} // verus!
