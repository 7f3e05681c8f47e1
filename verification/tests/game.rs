use volley::bullet::Bullet;
use volley::codec::{Packet, PlayerEvent};
use volley::team::{GameResult, GameStatus, Team};

const PID: u64 = 0x706C6179657231_00; // "player1" padded, as packed bytes
const BID: u64 = 99;

fn team_with_player(join_ms: u64) -> Team {
    let mut t = Team::new(600, 600);
    t.add_player(PID, join_ms);
    t
}

#[test]
fn collision_at_fifteen_apart_but_not_at_twenty_five() {
    // Radius 10 each: overlapping at distance 15, disjoint at distance 25
    // (tangency at the radius sum does not count as a hit).
    let a = Bullet::new(100, 100, 600);
    let b = Bullet::new(115, 100, 600);
    let c = Bullet::new(125, 100, 600);
    assert!(a.collides_with(&b));
    assert!(b.collides_with(&a));
    assert!(!a.collides_with(&c));
    assert!(!c.collides_with(&a));
}

#[test]
fn collision_tangent_at_radius_sum_is_no_hit() {
    let a = Bullet::new(100, 100, 600);
    let d = Bullet::new(120, 100, 600); // centers exactly 20 apart
    assert!(!a.collides_with(&d));
    let e = Bullet::new(119, 100, 600);
    assert!(a.collides_with(&e));
}

#[test]
fn fly_floors_at_zero_and_fall_caps_at_base() {
    let mut b = Bullet::new(10, 25, 600);
    assert!(b.fly());
    assert_eq!(b.y(), 15);
    assert!(b.fly());
    assert_eq!(b.y(), 5);
    assert!(!b.fly());
    assert_eq!(b.y(), 0);

    let mut e = Bullet::new(10, 585, 600);
    assert!(e.fall());
    assert_eq!(e.y(), 595);
    assert!(!e.fall());
    assert_eq!(e.y(), 600);
}

#[test]
fn fire_cooldown_drops_second_intent() {
    let mut t = team_with_player(0);
    // The join stamps the fire clock: the first intent must wait a cooldown.
    assert!(t.apply_fire_with_id(PID, BID, 399).is_none());
    assert_eq!(t.bullets.len(), 0);
    let created = t.apply_fire_with_id(PID, BID, 400);
    assert_eq!(created, Some(Packet::BulletCreate { id: BID, x: 300, y: 598 }));
    assert_eq!(t.bullets.len(), 1);
    // A second intent less than the cooldown later: exactly one projectile.
    assert!(t.apply_fire_with_id(PID, 100, 799).is_none());
    assert_eq!(t.bullets.len(), 1);
    assert!(t.apply_fire_with_id(PID, 100, 800).is_some());
    assert_eq!(t.bullets.len(), 2);
}

#[test]
fn fire_from_unknown_identity_is_dropped() {
    let mut t = team_with_player(0);
    assert!(t.apply_fire_with_id(0xDEAD, BID, 1000).is_none());
    assert_eq!(t.bullets.len(), 0);
}

#[test]
fn random_identity_fire_creates_one_projectile() {
    let mut t = team_with_player(0);
    let r = t.apply_fire(PID, 500);
    assert!(matches!(r, Some(Packet::BulletCreate { x: 300, y: 598, .. })));
    assert_eq!(t.bullets.len(), 1);
}

#[test]
fn position_update_cooldown() {
    let mut t = team_with_player(0);
    t.apply_pos(PID, 111, 49); // inside the update cooldown: dropped
    assert_eq!(t.players[0].1.x, 300);
    t.apply_pos(PID, 111, 50);
    assert_eq!(t.players[0].1.x, 111);
    t.apply_pos(PID, 222, 99); // 49 ms since the applied update: dropped
    assert_eq!(t.players[0].1.x, 111);
    t.apply_pos(PID, 222, 100);
    assert_eq!(t.players[0].1.x, 222);
}

#[test]
fn exit_removes_participant_and_unknown_exit_is_noop() {
    let mut t = team_with_player(0);
    t.apply_destroy(0xDEAD);
    assert_eq!(t.players.len(), 1);
    t.apply_destroy(PID);
    assert_eq!(t.players.len(), 0);
}

#[test]
fn apply_packet_dispatches_events() {
    let mut t = team_with_player(0);
    let r = t.apply_packet(&Packet::PlayerEvent { pid: PID, event: PlayerEvent::Fire }, 400);
    assert!(matches!(r, Some(Packet::BulletCreate { x: 300, y: 598, .. })));
    assert!(t.apply_packet(&Packet::PlayerPos { pid: PID, x: 42, y: 0 }, 450).is_none());
    assert_eq!(t.players[0].1.x, 42);
    assert!(t.apply_packet(&Packet::PlayerEvent { pid: PID, event: PlayerEvent::Exit }, 500).is_none());
    assert_eq!(t.players.len(), 0);
}

#[test]
fn rejoin_replaces_roster_entry() {
    let mut t = team_with_player(0);
    t.apply_pos(PID, 77, 1000);
    t.add_player(PID, 2000);
    assert_eq!(t.players.len(), 1);
    assert_eq!(t.players[0].1.x, 300);
}

#[test]
fn session_start_lists_roster() {
    let mut t = Team::new(600, 480);
    t.add_player(1, 0);
    t.add_player(2, 0);
    let info = t.start_game();
    assert_eq!(info, Packet::GameInfo { width: 600, height: 480, pids: vec![1, 2] });
}

#[test]
fn projectile_crosses_after_sixty_ticks_and_scores_after_sixty_more() {
    // End score 5, fire cooldown 400 ms, tick step 10, field height 600.
    let mut firing = team_with_player(0);
    let mut defending = Team::new(600, 600);

    assert!(firing.apply_fire_with_id(PID, BID, 400).is_some());
    for tick_no in 1..=59 {
        let r = firing.tick();
        assert!(r.transfers.is_empty(), "no transfer before tick 60 (tick {tick_no})");
        assert_eq!(firing.bullets.len(), 1);
        assert_eq!(firing.bullets[0].1.y(), 598 - 10 * tick_no);
    }
    // ceil(600 / 10) = 60: the projectile crosses on the 60th tick.
    let r = firing.tick();
    assert_eq!(r.transfers.len(), 1);
    assert!(firing.bullets.is_empty());
    let (id, bullet) = r.transfers[0];
    assert_eq!(id, BID);
    assert_eq!(bullet.x(), 300); // horizontal position preserved
    assert_eq!(bullet.y(), 0); // arrives at the opposing top edge
    assert_eq!(r.notices(), vec![Packet::BulletDestroy(BID)]);

    let notice = defending.accept_transfer(id, bullet);
    assert_eq!(notice, Packet::EnemyCreate { id: BID, x: 300, y: 0 });
    for tick_no in 1..=59 {
        let r = defending.tick();
        assert!(r.base_hits.is_empty(), "no base hit before tick 60 (tick {tick_no})");
        assert_eq!(defending.enemies[0].1.y(), 10 * tick_no);
    }
    // A further ceil(600 / 10) = 60 ticks: the threat reaches the base line.
    let r = defending.tick();
    assert_eq!(r.base_hits, vec![BID]);
    assert!(defending.enemies.is_empty());
    assert_eq!(r.notices(), vec![Packet::EnemyDestroy(BID), Packet::EnemyHit]);

    // The hit confirmation crosses the relay back to the firing team.
    let out = firing.apply_relay(&Packet::EnemyHit);
    assert_eq!(firing.score, 1);
    assert_eq!(out.notices, vec![Packet::BulletHit]);
    assert!(out.reply.is_none());
    assert!(out.result.is_none());
}

#[test]
fn colliding_pair_is_removed_on_both_sides() {
    let mut t = team_with_player(0);
    assert!(t.apply_fire_with_id(PID, BID, 400).is_some()); // bullet at (300, 598)
    t.accept_transfer(7, Bullet::new(300, 588, 600)); // meets the bullet post-step
    let r = t.tick();
    assert_eq!(r.shot_bullets, vec![BID]);
    assert_eq!(r.shot_enemies, vec![7]);
    assert!(r.transfers.is_empty());
    assert!(r.base_hits.is_empty());
    assert!(t.bullets.is_empty());
    assert!(t.enemies.is_empty());
    assert_eq!(
        r.notices(),
        vec![Packet::BulletDestroy(BID), Packet::EnemyDestroy(7)]
    );
}

#[test]
fn distant_pair_survives_the_scan() {
    let mut t = team_with_player(0);
    assert!(t.apply_fire_with_id(PID, BID, 400).is_some());
    t.accept_transfer(7, Bullet::new(500, 100, 600));
    let r = t.tick();
    assert!(r.shot_bullets.is_empty());
    assert!(r.shot_enemies.is_empty());
    assert_eq!(t.bullets.len(), 1);
    assert_eq!(t.enemies.len(), 1);
    assert_eq!(t.enemies[0].1.y(), 110);
}

#[test]
fn simultaneous_base_hits_all_count() {
    let mut t = Team::new(600, 600);
    t.accept_transfer(1, Bullet::new(100, 595, 600));
    t.accept_transfer(2, Bullet::new(400, 591, 600));
    let r = t.tick();
    assert_eq!(r.base_hits, vec![1, 2]);
    assert!(t.enemies.is_empty());
}

#[test]
fn five_hits_win_the_match_and_the_sixth_is_ignored() {
    let mut t = Team::new(600, 600);
    for k in 1..=4u32 {
        let out = t.apply_relay(&Packet::EnemyHit);
        assert_eq!(t.score, k);
        assert_eq!(t.status, GameStatus::Running);
        assert_eq!(out.notices, vec![Packet::BulletHit]);
        assert!(out.reply.is_none());
        assert!(out.result.is_none());
    }
    let out = t.apply_relay(&Packet::EnemyHit);
    assert_eq!(t.score, 5);
    assert_eq!(t.status, GameStatus::Won);
    assert_eq!(out.notices, vec![Packet::BulletHit, Packet::GameWon]);
    assert_eq!(out.reply, Some(Packet::GameWon));
    assert_eq!(out.result, Some(GameResult::Won));
    // Terminal: no further increment, no further transition.
    let out = t.apply_relay(&Packet::EnemyHit);
    assert_eq!(t.score, 5);
    assert_eq!(t.status, GameStatus::Won);
    assert!(out.notices.is_empty());
    assert!(out.reply.is_none());
    assert!(out.result.is_none());
}

#[test]
fn peer_terminal_notice_loses_exactly_once() {
    let mut t = Team::new(600, 600);
    t.apply_relay(&Packet::EnemyHit);
    let out = t.apply_relay(&Packet::GameWon);
    assert_eq!(t.status, GameStatus::Lost);
    assert_eq!(t.score, 1);
    assert_eq!(out.notices, vec![Packet::GameLost]);
    assert_eq!(out.result, Some(GameResult::Lost));
    // Already lost: the transition happens exactly once.
    let out = t.apply_relay(&Packet::GameWon);
    assert_eq!(t.status, GameStatus::Lost);
    assert!(out.notices.is_empty());
    assert!(out.result.is_none());
}

#[test]
fn relay_ignores_foreign_messages() {
    let mut t = Team::new(600, 600);
    let out = t.apply_relay(&Packet::PlayerJoin(1));
    assert_eq!(t.score, 0);
    assert_eq!(t.status, GameStatus::Running);
    assert!(out.notices.is_empty());
}
