use vstd::prelude::*;
use crate::bullet::{collides, fall_step, fly_step, Bullet, BULLET_RADIUS};
use crate::codec::{Ident, Packet, PacketV};
use crate::player::{after_fire, after_pos, can_fire, can_update_pos, Player};
use crate::GAME_END_SCORE;

verus! {

/// How a finished match ended for one team.
#[derive(Clone, Copy, Debug, PartialEq, Eq, Structural)]
pub enum GameResult {
    Won,
    Lost,
}

/// One team's lifecycle. Both `Won` and `Lost` are terminal: a terminal
/// coordinator applies no further state change.
#[derive(Clone, Copy, Debug, PartialEq, Eq, Structural)]
pub enum GameStatus {
    Running,
    Won,
    Lost,
}

/// Index of the first entry keyed `k`, or -1 when no entry is.
pub open spec fn index_of_key<V>(s: Seq<(Ident, V)>, k: Ident) -> int
    decreases s.len(),
{
    if s.len() == 0 {
        -1
    } else if s[0].0 == k {
        0
    } else {
        let r = index_of_key(s.drop_first(), k);
        if r == -1 {
            -1
        } else {
            r + 1
        }
    }
}

pub proof fn lemma_index_of_key_at<V>(s: Seq<(Ident, V)>, k: Ident, i: int)
    requires
        0 <= i < s.len(),
        s[i].0 == k,
        forall|j: int| 0 <= j < i ==> s[j].0 != k,
    ensures
        index_of_key(s, k) == i,
    decreases s.len(),
{
    if i == 0 {
    } else {
        assert(s[0].0 != k);
        assert(s.drop_first()[i - 1].0 == k);
        assert(forall|j: int| 0 <= j < i - 1 ==> s.drop_first()[j].0 != k);
        lemma_index_of_key_at(s.drop_first(), k, i - 1);
    }
}

pub proof fn lemma_index_of_key_none<V>(s: Seq<(Ident, V)>, k: Ident)
    requires
        forall|j: int| 0 <= j < s.len() ==> s[j].0 != k,
    ensures
        index_of_key(s, k) == -1,
    decreases s.len(),
{
    if s.len() > 0 {
        lemma_index_of_key_none(s.drop_first(), k);
    }
}

pub proof fn lemma_index_of_key_props<V>(s: Seq<(Ident, V)>, k: Ident)
    ensures
        index_of_key(s, k) >= 0 ==> index_of_key(s, k) < s.len() && s[index_of_key(s, k)].0 == k,
        index_of_key(s, k) >= 0 ==> forall|j: int|
            0 <= j < index_of_key(s, k) ==> (#[trigger] s[j]).0 != k,
        index_of_key(s, k) == -1 ==> forall|j: int| 0 <= j < s.len() ==> (#[trigger] s[j]).0 != k,
        index_of_key(s, k) >= -1,
    decreases s.len(),
{
    if s.len() > 0 && s[0].0 != k {
        lemma_index_of_key_props(s.drop_first(), k);
        if index_of_key(s, k) == -1 {
            assert forall|j: int| 0 <= j < s.len() implies (#[trigger] s[j]).0 != k by {
                if j > 0 {
                    assert(s.drop_first()[j - 1] == s[j]);
                }
            }
        } else {
            assert forall|j: int| 0 <= j < index_of_key(s, k) implies (#[trigger] s[j]).0 != k by {
                if j > 0 {
                    assert(s.drop_first()[j - 1] == s[j]);
                }
            }
        }
    }
}

/// The single mutable source of truth for one team: roster, the two
/// projectile queues in firing order, the score, and the lifecycle state.
pub struct Team {
    pub width: u32,
    pub height: u32,
    pub score: u32,
    pub status: GameStatus,
    pub players: Vec<(Ident, Player)>,
    pub bullets: Vec<(Ident, Bullet)>,
    pub enemies: Vec<(Ident, Bullet)>,
}

impl Team {
    /// Internal invariant: the field is tall enough to fire from, the roster
    /// fits the session-start count byte and has no duplicate identity, every
    /// projectile carries this team's travel bound, incoming projectiles sit
    /// at or above the base line, and a running team is short of the end
    /// score.
    pub open spec fn wf(self) -> bool {
        &&& self.height >= 2
        &&& self.players@.len() <= 255
        &&& (forall|i: int, j: int|
            0 <= i < j < self.players@.len() ==> (#[trigger] self.players@[i]).0 != (
            #[trigger] self.players@[j]).0)
        &&& (forall|i: int|
            0 <= i < self.players@.len() ==> (#[trigger] self.players@[i]).1.max_y == self.height)
        &&& (forall|i: int|
            0 <= i < self.bullets@.len() ==> (#[trigger] self.bullets@[i]).1.max_y == self.height)
        &&& (forall|i: int|
            0 <= i < self.enemies@.len() ==> (#[trigger] self.enemies@[i]).1.max_y == self.height
                && self.enemies@[i].1.y <= self.height)
        &&& (self.status == GameStatus::Running ==> self.score < GAME_END_SCORE)
    }

    /// A fresh team on an empty field of the given size.
    pub fn new(width: u32, height: u32) -> (r: Team)
        requires
            height >= 2,
        ensures
            r.wf(),
            r.width == width,
            r.height == height,
            r.score == 0,
            r.status == GameStatus::Running,
            r.players@ == Seq::<(Ident, Player)>::empty(),
            r.bullets@ == Seq::<(Ident, Bullet)>::empty(),
            r.enemies@ == Seq::<(Ident, Bullet)>::empty(),
    {
        Team {
            width,
            height,
            score: 0,
            status: GameStatus::Running,
            players: Vec::new(),
            bullets: Vec::new(),
            enemies: Vec::new(),
        }
    }

    /// Index of a participant in the roster, if joined.
    fn find_player(&self, pid: Ident) -> (r: Option<usize>)
        ensures
            match r {
                Some(i) => i == index_of_key(self.players@, pid),
                None => index_of_key(self.players@, pid) == -1,
            },
    {
        let mut i: usize = 0;
        while i < self.players.len()
            invariant
                i <= self.players@.len(),
                forall|j: int| 0 <= j < i ==> (#[trigger] self.players@[j]).0 != pid,
            decreases self.players@.len() - i,
        {
            if self.players[i].0 == pid {
                proof {
                    lemma_index_of_key_at(self.players@, pid, i as int);
                }
                return Some(i);
            }
            i = i + 1;
        }
        proof {
            lemma_index_of_key_none(self.players@, pid);
        }
        None
    }

    /// Admit a participant under `pid` at join time `now_ms`, standing at the
    /// middle column. A rejoin under a live identity replaces that entry.
    pub fn add_player(&mut self, pid: Ident, now_ms: u64)
        requires
            old(self).wf(),
            old(self).players@.len() < 255,
        ensures
            final(self).wf(),
            ({
                let entry = (pid, Player {
                    x: old(self).width / 2,
                    max_x: old(self).width,
                    max_y: old(self).height,
                    last_fired: now_ms,
                    last_updated: now_ms,
                });
                let j = index_of_key(old(self).players@, pid);
                if j == -1 {
                    final(self).players@ == old(self).players@.push(entry)
                } else {
                    final(self).players@ == old(self).players@.update(j, entry)
                }
            }),
            final(self).width == old(self).width,
            final(self).height == old(self).height,
            final(self).score == old(self).score,
            final(self).status == old(self).status,
            final(self).bullets@ == old(self).bullets@,
            final(self).enemies@ == old(self).enemies@,
    {
        let player = Player::new(self.width, self.height, now_ms);
        proof {
            lemma_index_of_key_props(self.players@, pid);
        }
        match self.find_player(pid) {
            Some(i) => {
                self.players[i] = (pid, player);
            },
            None => {
                self.players.push((pid, player));
            },
        }
    }

    /// The joined identities, in roster order.
    pub fn get_pids(&self) -> (r: Vec<Ident>)
        ensures
            r@ == self.players@.map_values(|pp: (Ident, Player)| pp.0),
    {
        let mut r: Vec<Ident> = Vec::new();
        let mut i: usize = 0;
        while i < self.players.len()
            invariant
                i <= self.players@.len(),
                r@ == self.players@.take(i as int).map_values(|pp: (Ident, Player)| pp.0),
            decreases self.players@.len() - i,
        {
            r.push(self.players[i].0);
            proof {
                assert(self.players@.take(i + 1) =~= self.players@.take(i as int).push(
                    self.players@[i as int],
                ));
                assert(self.players@.take(i + 1).map_values(|pp: (Ident, Player)| pp.0)
                    =~= self.players@.take(i as int).map_values(|pp: (Ident, Player)| pp.0).push(
                    self.players@[i as int].0,
                ));
            }
            i = i + 1;
        }
        proof {
            assert(self.players@.take(self.players@.len() as int) =~= self.players@);
        }
        r
    }

    /// The session-start message for this team's participants.
    pub fn start_game(&self) -> (r: Packet)
        requires
            self.wf(),
        ensures
            r@ == (PacketV::GameInfo {
                width: self.width,
                height: self.height,
                pids: self.players@.map_values(|pp: (Ident, Player)| pp.0),
            }),
            r.wf(),
    {
        let pids = self.get_pids();
        Packet::GameInfo { width: self.width, height: self.height, pids }
    }
}


/// Relies on nanoid::format with the url-safe alphabet and the crate's
/// default rng: it returns exactly as many characters as asked for, each a
/// one-byte ascii symbol, so eight characters are eight bytes.
#[verifier::external_body]
fn fresh_ident_bytes() -> (r: Vec<u8>)
    ensures
        r@.len() == 8,
{
    nanoid::format(nanoid::rngs::default, &nanoid::alphabet::SAFE, 8).into_bytes()
}

/// A freshly drawn projectile identity. The draw is random: nothing relates
/// two calls, so callers state what holds of any returned value.
fn fresh_ident() -> Ident {
    let bytes = fresh_ident_bytes();
    crate::codec::read_ident(&bytes, 0)
}

/// What applying one inbound message must do: exit and fire sub-events by
/// their own rules, position updates by theirs, anything else ignored. The
/// fire case holds for some identity because the identity is drawn fresh.
pub open spec fn packet_applied(
    pre: Team,
    post: Team,
    p: PacketV,
    now_ms: u64,
    r: Option<Packet>,
) -> bool {
    match p {
        PacketV::PlayerDestroy(pid) => destroy_applied(pre, post, pid) && r is None,
        PacketV::PlayerEvent { pid, event } => if event == crate::codec::PlayerEvent::Fire {
            exists|id: Ident| fire_applied(pre, post, pid, id, now_ms, r)
        } else {
            destroy_applied(pre, post, pid) && r is None
        },
        PacketV::PlayerPos { pid, x, y } => pos_applied(pre, post, pid, x, now_ms) && r is None,
        _ => post == pre && r is None,
    }
}

/// What applying an exit event must do: drop the named roster entry, touch
/// nothing else; an unknown identity is a no-op.
pub open spec fn destroy_applied(pre: Team, post: Team, pid: Ident) -> bool {
    let j = index_of_key(pre.players@, pid);
    &&& if j == -1 {
        post.players@ == pre.players@
    } else {
        post.players@ == pre.players@.remove(j)
    }
    &&& post.width == pre.width
    &&& post.height == pre.height
    &&& post.score == pre.score
    &&& post.status == pre.status
    &&& post.bullets@ == pre.bullets@
    &&& post.enemies@ == pre.enemies@
}

/// What applying a fire intent must do: if the participant is joined and
/// its cooldown has passed, stamp the fire time, append one outgoing
/// projectile under `id` at the participant's column on the base row, and
/// notice its creation; otherwise change nothing and notice nothing.
pub open spec fn fire_applied(
    pre: Team,
    post: Team,
    pid: Ident,
    id: Ident,
    now_ms: u64,
    r: Option<Packet>,
) -> bool {
    let j = index_of_key(pre.players@, pid);
    let p = pre.players@[j].1;
    let b = Bullet { x: p.x, y: (p.max_y - 2) as u32, radius: BULLET_RADIUS, max_y: p.max_y };
    &&& if j >= 0 && can_fire(p, now_ms) {
        &&& post.players@ == pre.players@.update(j, (pid, after_fire(p, now_ms)))
        &&& post.bullets@ == pre.bullets@.push((id, b))
        &&& r == Some(Packet::BulletCreate { id, x: b.x, y: b.y })
    } else {
        &&& post.players@ == pre.players@
        &&& post.bullets@ == pre.bullets@
        &&& r is None
    }
    &&& post.width == pre.width
    &&& post.height == pre.height
    &&& post.score == pre.score
    &&& post.status == pre.status
    &&& post.enemies@ == pre.enemies@
}

/// What applying a position update must do: if the participant is joined
/// and its update cooldown has passed, move it to the reported column and
/// stamp the update time; otherwise change nothing.
pub open spec fn pos_applied(pre: Team, post: Team, pid: Ident, x: u32, now_ms: u64) -> bool {
    let j = index_of_key(pre.players@, pid);
    let p = pre.players@[j].1;
    &&& if j >= 0 && can_update_pos(p, now_ms) {
        post.players@ == pre.players@.update(j, (pid, after_pos(p, x, now_ms)))
    } else {
        post.players@ == pre.players@
    }
    &&& post.width == pre.width
    &&& post.height == pre.height
    &&& post.score == pre.score
    &&& post.status == pre.status
    &&& post.bullets@ == pre.bullets@
    &&& post.enemies@ == pre.enemies@
}

impl Team {
    /// Apply an exit event: remove the participant from the roster. An
    /// unknown identity is a no-op, not a fault.
    pub fn apply_destroy(&mut self, pid: Ident)
        requires
            old(self).wf(),
        ensures
            final(self).wf(),
            destroy_applied(*old(self), *final(self), pid),
    {
        proof {
            lemma_index_of_key_props(self.players@, pid);
        }
        match self.find_player(pid) {
            Some(i) => {
                self.players.remove(i);
                proof {
                    let pre = old(self).players@;
                    let j = i as int;
                    assert forall|a: int, b: int|
                        0 <= a < b < self.players@.len() implies (#[trigger] self.players@[a]).0
                        != (#[trigger] self.players@[b]).0 by {
                        assert(self.players@[a] == if a < j {
                            pre[a]
                        } else {
                            pre[a + 1]
                        });
                        assert(self.players@[b] == if b < j {
                            pre[b]
                        } else {
                            pre[b + 1]
                        });
                    }
                    assert forall|a: int| 0 <= a < self.players@.len() implies (
                    #[trigger] self.players@[a]).1.max_y == self.height by {
                        assert(self.players@[a] == if a < j {
                            pre[a]
                        } else {
                            pre[a + 1]
                        });
                    }
                }
            },
            None => {},
        }
    }

    /// Apply a fire intent whose fresh projectile identity was already
    /// drawn. Unknown identities are dropped; an intent inside the fire
    /// cooldown is dropped silently.
    pub fn apply_fire_with_id(&mut self, pid: Ident, id: Ident, now_ms: u64) -> (r: Option<
        Packet,
    >)
        requires
            old(self).wf(),
        ensures
            final(self).wf(),
            fire_applied(*old(self), *final(self), pid, id, now_ms, r),
    {
        proof {
            lemma_index_of_key_props(self.players@, pid);
        }
        match self.find_player(pid) {
            Some(i) => {
                let now_since = self.players[i].1.last_fired(now_ms);
                if now_since >= crate::PLAYER_FIRE_INTERVAL {
                    let bullet = self.players[i].1.fire(now_ms);
                    self.bullets.push((id, bullet));
                    proof {
                        let j = i as int;
                        let pre = old(self).players@;
                        assert(self.players@ =~= pre.update(
                            j,
                            (pid, after_fire(pre[j].1, now_ms)),
                        ));
                    }
                    Some(Packet::BulletCreate { id, x: bullet.x(), y: bullet.y() })
                } else {
                    None
                }
            },
            None => None,
        }
    }

    /// Apply a fire intent, drawing a fresh random projectile identity.
    /// Whatever identity the draw returns, the rest is `fire_applied`.
    pub fn apply_fire(&mut self, pid: Ident, now_ms: u64) -> (r: Option<Packet>)
        requires
            old(self).wf(),
        ensures
            final(self).wf(),
            exists|id: Ident| fire_applied(*old(self), *final(self), pid, id, now_ms, r),
    {
        let id = fresh_ident();
        let r = self.apply_fire_with_id(pid, id, now_ms);
        proof {
            assert(fire_applied(*old(self), *self, pid, id, now_ms, r));
        }
        r
    }

    /// Apply a position update: the reported absolute column is trusted,
    /// but updates inside the position cooldown are dropped silently.
    pub fn apply_pos(&mut self, pid: Ident, x: u32, now_ms: u64)
        requires
            old(self).wf(),
        ensures
            final(self).wf(),
            pos_applied(*old(self), *final(self), pid, x, now_ms),
    {
        proof {
            lemma_index_of_key_props(self.players@, pid);
        }
        match self.find_player(pid) {
            Some(i) => {
                let since = if now_ms >= self.players[i].1.last_updated {
                    now_ms - self.players[i].1.last_updated
                } else {
                    0
                };
                if since >= crate::PLAYER_UPDATE_INTERVAL {
                    let p = self.players[i].1;
                    self.players[i] = (pid, Player { x, last_updated: now_ms, ..p });
                    proof {
                        let j = i as int;
                        let pre = old(self).players@;
                        assert(self.players@ =~= pre.update(
                            j,
                            (pid, after_pos(pre[j].1, x, now_ms)),
                        ));
                    }
                }
            },
            None => {},
        }
    }

    /// Apply one participant-originated message from the inbound queue, as
    /// the event-application loop does: exits shrink the roster, fire
    /// intents may spawn a projectile (the returned creation notice), and
    /// position updates move the reporter. Anything else is ignored.
    pub fn apply_packet(&mut self, packet: &Packet, now_ms: u64) -> (r: Option<Packet>)
        requires
            old(self).wf(),
        ensures
            final(self).wf(),
            packet_applied(*old(self), *final(self), packet@, now_ms, r),
    {
        match packet {
            Packet::PlayerDestroy(pid) => {
                self.apply_destroy(*pid);
                None
            },
            Packet::PlayerEvent { pid, event } => {
                match event {
                    crate::codec::PlayerEvent::Fire => {
                        let r = self.apply_fire(*pid, now_ms);
                        proof {
                            // Rename the fire witness to the view's own
                            // field so the existential in `packet_applied`
                            // finds it.
                            let w = choose|id: Ident|
                                fire_applied(*old(self), *self, *pid, id, now_ms, r);
                            match packet@ {
                                PacketV::PlayerEvent { pid: vpid, .. } => {
                                    assert(fire_applied(*old(self), *self, vpid, w, now_ms, r));
                                },
                                _ => {},
                            }
                        }
                        r
                    },
                    crate::codec::PlayerEvent::Exit => {
                        self.apply_destroy(*pid);
                        None
                    },
                }
            },
            Packet::PlayerPos { pid, x, y: _ } => {
                self.apply_pos(*pid, *x, now_ms);
                None
            },
            _ => {
                None
            },
        }
    }
}


/// The outgoing queue after one tick's advance: every projectile one fly
/// step further, keeping those still in flight, in firing order.
pub open spec fn flown_survivors(bs: Seq<(Ident, Bullet)>) -> Seq<(Ident, Bullet)>
    decreases bs.len(),
{
    if bs.len() == 0 {
        Seq::empty()
    } else {
        let rest = flown_survivors(bs.drop_last());
        let moved = fly_step(bs.last().1);
        if moved.y > 0 {
            rest.push((bs.last().0, moved))
        } else {
            rest
        }
    }
}

/// The projectiles that reach the far boundary this tick, advanced, in
/// firing order: these leave the team and cross to the opponent.
pub open spec fn transfers_of(bs: Seq<(Ident, Bullet)>) -> Seq<(Ident, Bullet)>
    decreases bs.len(),
{
    if bs.len() == 0 {
        Seq::empty()
    } else {
        let rest = transfers_of(bs.drop_last());
        let moved = fly_step(bs.last().1);
        if moved.y == 0 {
            rest.push((bs.last().0, moved))
        } else {
            rest
        }
    }
}

/// Whether an outgoing projectile overlaps any incoming one this tick.
pub open spec fn hits_some_enemy(b: Bullet, es: Seq<(Ident, Bullet)>) -> bool {
    exists|j: int| 0 <= j < es.len() && collides(b, (#[trigger] es[j]).1)
}

/// Whether an incoming projectile overlaps any outgoing one this tick.
pub open spec fn hit_by_some_bullet(e: Bullet, bs: Seq<(Ident, Bullet)>) -> bool {
    exists|i: int| 0 <= i < bs.len() && collides((#[trigger] bs[i]).1, e)
}

/// Outgoing projectiles that survive the collision scan, in order.
pub open spec fn bullets_after_scan(
    bs: Seq<(Ident, Bullet)>,
    es: Seq<(Ident, Bullet)>,
) -> Seq<(Ident, Bullet)>
    decreases bs.len(),
{
    if bs.len() == 0 {
        Seq::empty()
    } else {
        let rest = bullets_after_scan(bs.drop_last(), es);
        if hits_some_enemy(bs.last().1, es) {
            rest
        } else {
            rest.push(bs.last())
        }
    }
}

/// Identities of outgoing projectiles consumed by the collision scan.
pub open spec fn collided_bullet_ids(
    bs: Seq<(Ident, Bullet)>,
    es: Seq<(Ident, Bullet)>,
) -> Seq<Ident>
    decreases bs.len(),
{
    if bs.len() == 0 {
        Seq::empty()
    } else {
        let rest = collided_bullet_ids(bs.drop_last(), es);
        if hits_some_enemy(bs.last().1, es) {
            rest.push(bs.last().0)
        } else {
            rest
        }
    }
}

/// Incoming projectiles that survive the collision scan, in order.
pub open spec fn enemies_after_scan(
    es: Seq<(Ident, Bullet)>,
    bs: Seq<(Ident, Bullet)>,
) -> Seq<(Ident, Bullet)>
    decreases es.len(),
{
    if es.len() == 0 {
        Seq::empty()
    } else {
        let rest = enemies_after_scan(es.drop_last(), bs);
        if hit_by_some_bullet(es.last().1, bs) {
            rest
        } else {
            rest.push(es.last())
        }
    }
}

/// Identities of incoming projectiles consumed by the collision scan.
pub open spec fn collided_enemy_ids(
    es: Seq<(Ident, Bullet)>,
    bs: Seq<(Ident, Bullet)>,
) -> Seq<Ident>
    decreases es.len(),
{
    if es.len() == 0 {
        Seq::empty()
    } else {
        let rest = collided_enemy_ids(es.drop_last(), bs);
        if hit_by_some_bullet(es.last().1, bs) {
            rest.push(es.last().0)
        } else {
            rest
        }
    }
}

/// The incoming queue after its advance: every survivor one fall step
/// closer to the base, keeping those short of the base line, in order.
pub open spec fn enemies_after_fall(es: Seq<(Ident, Bullet)>) -> Seq<(Ident, Bullet)>
    decreases es.len(),
{
    if es.len() == 0 {
        Seq::empty()
    } else {
        let rest = enemies_after_fall(es.drop_last());
        let moved = fall_step(es.last().1);
        if moved.y < moved.max_y {
            rest.push((es.last().0, moved))
        } else {
            rest
        }
    }
}

/// Identities of incoming projectiles that reach the base line this tick:
/// each is one base hit, scored by the team that fired it.
pub open spec fn base_hit_ids(es: Seq<(Ident, Bullet)>) -> Seq<Ident>
    decreases es.len(),
{
    if es.len() == 0 {
        Seq::empty()
    } else {
        let rest = base_hit_ids(es.drop_last());
        let moved = fall_step(es.last().1);
        if moved.y < moved.max_y {
            rest
        } else {
            rest.push(es.last().0)
        }
    }
}

/// Everything one physics tick hands outward: projectiles crossing to the
/// opponent, both halves of every colliding pair, and base hits.
pub struct TickResult {
    pub transfers: Vec<(Ident, Bullet)>,
    pub shot_bullets: Vec<Ident>,
    pub shot_enemies: Vec<Ident>,
    pub base_hits: Vec<Ident>,
}

/// Whether `b` overlaps any incoming projectile in `es`.
fn collides_any_enemy(b: &Bullet, es: &Vec<(Ident, Bullet)>) -> (r: bool)
    ensures
        r == hits_some_enemy(*b, es@),
{
    let mut j: usize = 0;
    while j < es.len()
        invariant
            j <= es@.len(),
            forall|k: int| 0 <= k < j ==> !collides(*b, (#[trigger] es@[k]).1),
        decreases es@.len() - j,
    {
        if b.collides_with(&es[j].1) {
            return true;
        }
        j = j + 1;
    }
    false
}

/// Whether `e` overlaps any outgoing projectile in `bs`.
fn collides_any_bullet(e: &Bullet, bs: &Vec<(Ident, Bullet)>) -> (r: bool)
    ensures
        r == hit_by_some_bullet(*e, bs@),
{
    let mut i: usize = 0;
    while i < bs.len()
        invariant
            i <= bs@.len(),
            forall|k: int| 0 <= k < i ==> !collides((#[trigger] bs@[k]).1, *e),
        decreases bs@.len() - i,
    {
        if bs[i].1.collides_with(e) {
            return true;
        }
        i = i + 1;
    }
    false
}

impl Team {
    /// One physics tick, in the fixed order: advance outgoing projectiles
    /// (those reaching the far boundary become transfers), scan every
    /// still-in-flight (outgoing, incoming) pair for collisions and remove
    /// both members of each colliding pair, then advance the surviving
    /// incoming projectiles (those reaching the base line are base hits).
    /// Roster, score and status are untouched.
    #[verifier::loop_isolation(false)]
    pub fn tick(&mut self) -> (r: TickResult)
        requires
            old(self).wf(),
        ensures
            final(self).wf(),
            final(self).bullets@ == bullets_after_scan(
                flown_survivors(old(self).bullets@),
                old(self).enemies@,
            ),
            r.transfers@ == transfers_of(old(self).bullets@),
            r.shot_bullets@ == collided_bullet_ids(
                flown_survivors(old(self).bullets@),
                old(self).enemies@,
            ),
            final(self).enemies@ == enemies_after_fall(
                enemies_after_scan(old(self).enemies@, flown_survivors(old(self).bullets@)),
            ),
            r.shot_enemies@ == collided_enemy_ids(
                old(self).enemies@,
                flown_survivors(old(self).bullets@),
            ),
            r.base_hits@ == base_hit_ids(
                enemies_after_scan(old(self).enemies@, flown_survivors(old(self).bullets@)),
            ),
            final(self).players@ == old(self).players@,
            final(self).width == old(self).width,
            final(self).height == old(self).height,
            final(self).score == old(self).score,
            final(self).status == old(self).status,
    {
        let ghost pre_bullets = self.bullets@;
        let ghost pre_enemies = self.enemies@;
        // Advance outgoing projectiles; those past the top are transfers.
        let mut flown: Vec<(Ident, Bullet)> = Vec::new();
        let mut transfers: Vec<(Ident, Bullet)> = Vec::new();
        let mut i: usize = 0;
        while i < self.bullets.len()
            invariant
                i <= pre_bullets.len(),
                self.bullets@ == pre_bullets,
                flown@ == flown_survivors(pre_bullets.take(i as int)),
                transfers@ == transfers_of(pre_bullets.take(i as int)),
                forall|k: int|
                    0 <= k < flown@.len() ==> (#[trigger] flown@[k]).1.max_y == self.height,
            decreases pre_bullets.len() - i,
        {
            proof {
                assert(pre_bullets[i as int].1.max_y == self.height);
            }
            let (id, mut b) = self.bullets[i];
            let alive = b.fly();
            if alive {
                flown.push((id, b));
            } else {
                transfers.push((id, b));
            }
            proof {
                assert(pre_bullets.take(i + 1).drop_last() =~= pre_bullets.take(i as int));
                assert(pre_bullets.take(i + 1).last() == pre_bullets[i as int]);
            }
            i = i + 1;
        }
        proof {
            assert(pre_bullets.take(pre_bullets.len() as int) =~= pre_bullets);
        }
        // Collision scan: outgoing side.
        let mut new_bullets: Vec<(Ident, Bullet)> = Vec::new();
        let mut shot_bullets: Vec<Ident> = Vec::new();
        let mut i: usize = 0;
        while i < flown.len()
            invariant
                i <= flown@.len(),
                self.enemies@ == pre_enemies,
                new_bullets@ == bullets_after_scan(flown@.take(i as int), pre_enemies),
                shot_bullets@ == collided_bullet_ids(flown@.take(i as int), pre_enemies),
                forall|k: int|
                    0 <= k < new_bullets@.len() ==> (#[trigger] new_bullets@[k]).1.max_y
                        == self.height,
                forall|k: int|
                    0 <= k < flown@.len() ==> (#[trigger] flown@[k]).1.max_y == self.height,
            decreases flown@.len() - i,
        {
            let hit = collides_any_enemy(&flown[i].1, &self.enemies);
            if hit {
                shot_bullets.push(flown[i].0);
            } else {
                new_bullets.push(flown[i]);
            }
            proof {
                assert(flown@.take(i + 1).drop_last() =~= flown@.take(i as int));
                assert(flown@.take(i + 1).last() == flown@[i as int]);
            }
            i = i + 1;
        }
        proof {
            assert(flown@.take(flown@.len() as int) =~= flown@);
        }
        // Collision scan: incoming side.
        let mut kept_enemies: Vec<(Ident, Bullet)> = Vec::new();
        let mut shot_enemies: Vec<Ident> = Vec::new();
        let mut i: usize = 0;
        while i < self.enemies.len()
            invariant
                i <= pre_enemies.len(),
                self.enemies@ == pre_enemies,
                forall|k: int|
                    0 <= k < pre_enemies.len() ==> (#[trigger] pre_enemies[k]).1.max_y
                        == self.height && pre_enemies[k].1.y <= self.height,
                kept_enemies@ == enemies_after_scan(pre_enemies.take(i as int), flown@),
                shot_enemies@ == collided_enemy_ids(pre_enemies.take(i as int), flown@),
                forall|k: int|
                    0 <= k < kept_enemies@.len() ==> (#[trigger] kept_enemies@[k]).1.max_y
                        == self.height && kept_enemies@[k].1.y <= self.height,
            decreases pre_enemies.len() - i,
        {
            let hit = collides_any_bullet(&self.enemies[i].1, &flown);
            if hit {
                shot_enemies.push(self.enemies[i].0);
            } else {
                kept_enemies.push(self.enemies[i]);
            }
            proof {
                assert(pre_enemies.take(i + 1).drop_last() =~= pre_enemies.take(i as int));
                assert(pre_enemies.take(i + 1).last() == pre_enemies[i as int]);
            }
            i = i + 1;
        }
        proof {
            assert(pre_enemies.take(pre_enemies.len() as int) =~= pre_enemies);
        }
        // Advance incoming projectiles; those at the base line are hits.
        let ghost scanned = kept_enemies@;
        let mut remaining: Vec<(Ident, Bullet)> = Vec::new();
        let mut base_hits: Vec<Ident> = Vec::new();
        let mut i: usize = 0;
        while i < kept_enemies.len()
            invariant
                i <= scanned.len(),
                kept_enemies@ == scanned,
                forall|k: int|
                    0 <= k < scanned.len() ==> (#[trigger] scanned[k]).1.max_y == self.height
                        && scanned[k].1.y <= self.height,
                remaining@ == enemies_after_fall(scanned.take(i as int)),
                base_hits@ == base_hit_ids(scanned.take(i as int)),
                forall|k: int|
                    0 <= k < remaining@.len() ==> (#[trigger] remaining@[k]).1.max_y == self.height
                        && remaining@[k].1.y <= self.height,
            decreases scanned.len() - i,
        {
            let (id, mut e) = kept_enemies[i];
            let short = e.fall();
            if short {
                remaining.push((id, e));
            } else {
                base_hits.push(id);
            }
            proof {
                assert(scanned.take(i + 1).drop_last() =~= scanned.take(i as int));
                assert(scanned.take(i + 1).last() == scanned[i as int]);
            }
            i = i + 1;
        }
        proof {
            assert(scanned.take(scanned.len() as int) =~= scanned);
        }
        self.bullets = new_bullets;
        self.enemies = remaining;
        TickResult { transfers, shot_bullets, shot_enemies, base_hits }
    }
}


/// Identity stability: every projectile transferred this tick appears in
/// the pre-tick outgoing queue under the same identity and the same
/// horizontal position, and arrives exactly at the far boundary.
pub proof fn lemma_transfer_preserves_identity(bs: Seq<(Ident, Bullet)>, k: int)
    requires
        0 <= k < transfers_of(bs).len(),
    ensures
        exists|i: int|
            0 <= i < bs.len() && (#[trigger] bs[i]).0 == transfers_of(bs)[k].0 && bs[i].1.x
                == transfers_of(bs)[k].1.x,
        transfers_of(bs)[k].1.y == 0,
    decreases bs.len(),
{
    let t = transfers_of(bs);
    if bs.len() > 0 {
        let rest = transfers_of(bs.drop_last());
        if k < rest.len() {
            lemma_transfer_preserves_identity(bs.drop_last(), k);
            let i = choose|i: int|
                0 <= i < bs.drop_last().len() && (#[trigger] bs.drop_last()[i]).0 == rest[k].0
                    && bs.drop_last()[i].1.x == rest[k].1.x;
            assert(bs[i] == bs.drop_last()[i]);
        } else {
            let i = bs.len() - 1;
            assert(bs[i] == bs.last());
            assert(t[k] == (bs.last().0, fly_step(bs.last().1)));
        }
    }
}

/// Rate limiting at the team level: of two fire intents by the same
/// participant separated by less than the fire cooldown, only the first
/// produces a projectile; the second is dropped and the queue is untouched.
pub proof fn lemma_team_fire_rate_limited(
    s0: Team,
    s1: Team,
    s2: Team,
    pid: Ident,
    id1: Ident,
    id2: Ident,
    t1: u64,
    t2: u64,
    r1: Option<Packet>,
    r2: Option<Packet>,
)
    requires
        s0.wf(),
        fire_applied(s0, s1, pid, id1, t1, r1),
        fire_applied(s1, s2, pid, id2, t2, r2),
        r1 is Some,
        t1 <= t2,
        t2 - t1 < crate::PLAYER_FIRE_INTERVAL,
    ensures
        r2 is None,
        s2.bullets@ == s1.bullets@,
        s2.players@ == s1.players@,
{
    let j = index_of_key(s0.players@, pid);
    lemma_index_of_key_props(s0.players@, pid);
    let upd = s0.players@.update(j, (pid, after_fire(s0.players@[j].1, t1)));
    assert(s1.players@ == upd);
    assert forall|i: int| 0 <= i < j implies (#[trigger] upd[i]).0 != pid by {
        assert(upd[i] == s0.players@[i]);
    }
    lemma_index_of_key_at(upd, pid, j);
    assert(upd[j].1 == after_fire(s0.players@[j].1, t1));
    crate::player::lemma_fire_rate_limited(s0.players@[j].1, t1, t2);
}

/// The relay scoring step: what one scoring-mailbox message does to a
/// team's score and lifecycle. Terminal states absorb everything; a hit
/// confirmation increments the score and wins at the end score; the peer's
/// terminal notice loses; other messages change nothing.
pub open spec fn relay_step(score: u32, status: GameStatus, p: PacketV) -> (u32, GameStatus) {
    if status != GameStatus::Running {
        (score, status)
    } else if p == PacketV::EnemyHit {
        let s2 = ((score + 1) as u32);
        if s2 >= GAME_END_SCORE {
            (s2, GameStatus::Won)
        } else {
            (s2, GameStatus::Running)
        }
    } else if p == PacketV::GameWon {
        (score, GameStatus::Lost)
    } else {
        (score, status)
    }
}

/// The relay scoring step folded over a whole mailbox history, in arrival
/// order.
pub open spec fn run_relay(score: u32, status: GameStatus, ps: Seq<PacketV>) -> (u32, GameStatus)
    decreases ps.len(),
{
    if ps.len() == 0 {
        (score, status)
    } else {
        let h = relay_step(score, status, ps[0]);
        run_relay(h.0, h.1, ps.drop_first())
    }
}

/// The hit confirmations in a mailbox history, in arrival order.
pub open spec fn count_hits(ps: Seq<PacketV>) -> nat
    decreases ps.len(),
{
    if ps.len() == 0 {
        0
    } else {
        (if ps[0] == PacketV::EnemyHit {
            1nat
        } else {
            0nat
        }) + count_hits(ps.drop_first())
    }
}

/// Score conservation: over any mailbox history free of terminal notices,
/// a running team's score rises by exactly the number of hit confirmations
/// it receives, as long as they fit under the end score.
pub proof fn lemma_score_conservation(score: u32, ps: Seq<PacketV>)
    requires
        forall|i: int| 0 <= i < ps.len() ==> ps[i] != PacketV::GameWon,
        score + count_hits(ps) <= GAME_END_SCORE,
    ensures
        run_relay(score, GameStatus::Running, ps).0 == score + count_hits(ps),
    decreases ps.len(),
{
    if ps.len() > 0 {
        let rest = ps.drop_first();
        assert(forall|i: int| 0 <= i < rest.len() ==> rest[i] == ps[i + 1]);
        if ps[0] == PacketV::EnemyHit {
            let s2 = ((score + 1) as u32);
            if s2 >= GAME_END_SCORE {
                assert(count_hits(rest) == 0);
                lemma_terminal_absorbs(s2, GameStatus::Won, rest);
            } else {
                lemma_score_conservation(s2, rest);
            }
        } else {
            lemma_score_conservation(score, rest);
        }
    }
}

/// Termination, winner side: a terminal team applies no further score
/// increment and no further transition, whatever else arrives.
pub proof fn lemma_terminal_absorbs(score: u32, status: GameStatus, ps: Seq<PacketV>)
    requires
        status != GameStatus::Running,
    ensures
        run_relay(score, status, ps) == (score, status),
    decreases ps.len(),
{
    if ps.len() > 0 {
        lemma_terminal_absorbs(score, status, ps.drop_first());
    }
}

/// Termination, loser side: a running team that receives the peer's
/// terminal notice makes exactly one transition, to `Lost`, and its score
/// never moves again.
pub proof fn lemma_single_loss(score: u32, ps: Seq<PacketV>)
    requires
        ps.len() > 0,
        ps[0] == PacketV::GameWon,
    ensures
        run_relay(score, GameStatus::Running, ps) == (score, GameStatus::Lost),
{
    lemma_terminal_absorbs(score, GameStatus::Lost, ps.drop_first());
}

/// What one relay message hands back: notices to broadcast to this team's
/// own participants, at most one terminal notice to send back through the
/// relay, and the match outcome once this team is terminal.
pub struct RelayOutcome {
    pub notices: Vec<Packet>,
    pub reply: Option<Packet>,
    pub result: Option<GameResult>,
}

impl Team {
    /// Append a projectile arriving from the opposing team to the incoming
    /// queue, identity and horizontal position untouched, and return the
    /// threat-creation notice to broadcast.
    pub fn accept_transfer(&mut self, id: Ident, bullet: Bullet) -> (r: Packet)
        requires
            old(self).wf(),
            bullet.max_y == old(self).height,
            bullet.y <= bullet.max_y,
        ensures
            final(self).wf(),
            final(self).enemies@ == old(self).enemies@.push((id, bullet)),
            r == (Packet::EnemyCreate { id, x: bullet.x, y: bullet.y }),
            final(self).players@ == old(self).players@,
            final(self).bullets@ == old(self).bullets@,
            final(self).width == old(self).width,
            final(self).height == old(self).height,
            final(self).score == old(self).score,
            final(self).status == old(self).status,
    {
        let r = Packet::EnemyCreate { id, x: bullet.x(), y: bullet.y() };
        self.enemies.push((id, bullet));
        r
    }

    /// Apply one message from the scoring mailbox. A hit confirmation means
    /// an outgoing projectile of this team hit the enemy base: echo the
    /// score notice, count it, and at the end score transition to `Won`,
    /// notify the participants and send the terminal notice to the peer. The
    /// peer's terminal notice transitions to `Lost`. A terminal team applies
    /// nothing.
    pub fn apply_relay(&mut self, packet: &Packet) -> (r: RelayOutcome)
        requires
            old(self).wf(),
        ensures
            final(self).wf(),
            (final(self).score, final(self).status) == relay_step(
                old(self).score,
                old(self).status,
                packet@,
            ),
            final(self).players@ == old(self).players@,
            final(self).bullets@ == old(self).bullets@,
            final(self).enemies@ == old(self).enemies@,
            final(self).width == old(self).width,
            final(self).height == old(self).height,
            ({
                let running = old(self).status == GameStatus::Running;
                if running && packet@ == PacketV::EnemyHit {
                    if final(self).score >= GAME_END_SCORE {
                        r.notices@ == seq![Packet::BulletHit, Packet::GameWon] && r.reply == Some(
                            Packet::GameWon,
                        ) && r.result == Some(GameResult::Won)
                    } else {
                        r.notices@ == seq![Packet::BulletHit] && r.reply is None
                            && r.result is None
                    }
                } else if running && packet@ == PacketV::GameWon {
                    r.notices@ == seq![Packet::GameLost] && r.reply is None && r.result == Some(
                        GameResult::Lost,
                    )
                } else {
                    r.notices@ == Seq::<Packet>::empty() && r.reply is None && r.result is None
                }
            }),
    {
        let mut notices: Vec<Packet> = Vec::new();
        if !matches!(self.status, GameStatus::Running) {
            return RelayOutcome { notices, reply: None, result: None };
        }
        match packet {
            Packet::EnemyHit => {
                notices.push(Packet::BulletHit);
                self.score = self.score + 1;
                if self.score >= crate::GAME_END_SCORE {
                    self.status = GameStatus::Won;
                    notices.push(Packet::GameWon);
                    proof {
                        assert(notices@ =~= seq![Packet::BulletHit, Packet::GameWon]);
                    }
                    RelayOutcome {
                        notices,
                        reply: Some(Packet::GameWon),
                        result: Some(GameResult::Won),
                    }
                } else {
                    proof {
                        assert(notices@ =~= seq![Packet::BulletHit]);
                    }
                    RelayOutcome { notices, reply: None, result: None }
                }
            },
            Packet::GameWon => {
                self.status = GameStatus::Lost;
                notices.push(Packet::GameLost);
                proof {
                    assert(notices@ =~= seq![Packet::GameLost]);
                }
                RelayOutcome { notices, reply: None, result: Some(GameResult::Lost) }
            },
            _ => RelayOutcome { notices, reply: None, result: None },
        }
    }
}


/// The pair of notices one base hit broadcasts locally: the threat is
/// destroyed, and this team's base was hit.
pub open spec fn hit_notices(ids: Seq<Ident>) -> Seq<Packet>
    decreases ids.len(),
{
    if ids.len() == 0 {
        Seq::empty()
    } else {
        hit_notices(ids.drop_last()) + seq![
            Packet::EnemyDestroy(ids.last()),
            Packet::EnemyHit,
        ]
    }
}

impl TickResult {
    /// The broadcast notices one tick owes this team's participants, in
    /// tick order: a destroy notice for every projectile that crossed to
    /// the opponent, one for each half of every colliding pair, then a
    /// destroy notice and a base-hit notice for every projectile that
    /// reached the base line.
    pub fn notices(&self) -> (r: Vec<Packet>)
        ensures
            r@ == self.transfers@.map_values(|tb: (Ident, Bullet)| Packet::BulletDestroy(tb.0))
                + self.shot_bullets@.map_values(|id: Ident| Packet::BulletDestroy(id))
                + self.shot_enemies@.map_values(|id: Ident| Packet::EnemyDestroy(id))
                + hit_notices(self.base_hits@),
    {
        let ghost goal = self.transfers@.map_values(
            |tb: (Ident, Bullet)| Packet::BulletDestroy(tb.0),
        ) + self.shot_bullets@.map_values(|id: Ident| Packet::BulletDestroy(id))
            + self.shot_enemies@.map_values(|id: Ident| Packet::EnemyDestroy(id)) + hit_notices(
            self.base_hits@,
        );
        let mut r: Vec<Packet> = Vec::new();
        let mut i: usize = 0;
        while i < self.transfers.len()
            invariant
                i <= self.transfers@.len(),
                r@ == self.transfers@.take(i as int).map_values(
                    |tb: (Ident, Bullet)| Packet::BulletDestroy(tb.0),
                ),
            decreases self.transfers@.len() - i,
        {
            r.push(Packet::BulletDestroy(self.transfers[i].0));
            proof {
                assert(self.transfers@.take(i + 1).map_values(
                    |tb: (Ident, Bullet)| Packet::BulletDestroy(tb.0),
                ) =~= self.transfers@.take(i as int).map_values(
                    |tb: (Ident, Bullet)| Packet::BulletDestroy(tb.0),
                ).push(Packet::BulletDestroy(self.transfers@[i as int].0)));
            }
            i = i + 1;
        }
        proof {
            assert(self.transfers@.take(self.transfers@.len() as int) =~= self.transfers@);
        }
        let ghost part1 = r@;
        let mut i: usize = 0;
        while i < self.shot_bullets.len()
            invariant
                i <= self.shot_bullets@.len(),
                r@ == part1 + self.shot_bullets@.take(i as int).map_values(
                    |id: Ident| Packet::BulletDestroy(id),
                ),
            decreases self.shot_bullets@.len() - i,
        {
            r.push(Packet::BulletDestroy(self.shot_bullets[i]));
            proof {
                assert(part1 + self.shot_bullets@.take(i + 1).map_values(
                    |id: Ident| Packet::BulletDestroy(id),
                ) =~= (part1 + self.shot_bullets@.take(i as int).map_values(
                    |id: Ident| Packet::BulletDestroy(id),
                )).push(Packet::BulletDestroy(self.shot_bullets@[i as int])));
            }
            i = i + 1;
        }
        proof {
            assert(self.shot_bullets@.take(self.shot_bullets@.len() as int)
                =~= self.shot_bullets@);
        }
        let ghost part2 = r@;
        let mut i: usize = 0;
        while i < self.shot_enemies.len()
            invariant
                i <= self.shot_enemies@.len(),
                r@ == part2 + self.shot_enemies@.take(i as int).map_values(
                    |id: Ident| Packet::EnemyDestroy(id),
                ),
            decreases self.shot_enemies@.len() - i,
        {
            r.push(Packet::EnemyDestroy(self.shot_enemies[i]));
            proof {
                assert(part2 + self.shot_enemies@.take(i + 1).map_values(
                    |id: Ident| Packet::EnemyDestroy(id),
                ) =~= (part2 + self.shot_enemies@.take(i as int).map_values(
                    |id: Ident| Packet::EnemyDestroy(id),
                )).push(Packet::EnemyDestroy(self.shot_enemies@[i as int])));
            }
            i = i + 1;
        }
        proof {
            assert(self.shot_enemies@.take(self.shot_enemies@.len() as int)
                =~= self.shot_enemies@);
        }
        let ghost part3 = r@;
        let mut i: usize = 0;
        while i < self.base_hits.len()
            invariant
                i <= self.base_hits@.len(),
                r@ == part3 + hit_notices(self.base_hits@.take(i as int)),
            decreases self.base_hits@.len() - i,
        {
            r.push(Packet::EnemyDestroy(self.base_hits[i]));
            r.push(Packet::EnemyHit);
            proof {
                assert(self.base_hits@.take(i + 1).drop_last() =~= self.base_hits@.take(i as int));
                assert(part3 + hit_notices(self.base_hits@.take(i + 1)) =~= (part3 + hit_notices(
                    self.base_hits@.take(i as int),
                )).push(Packet::EnemyDestroy(self.base_hits@[i as int])).push(Packet::EnemyHit));
            }
            i = i + 1;
        }
        proof {
            assert(self.base_hits@.take(self.base_hits@.len() as int) =~= self.base_hits@);
            assert(r@ =~= goal);
        }
        r
    }
}

} // verus!
