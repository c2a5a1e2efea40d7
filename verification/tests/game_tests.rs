use shootr::game::Game;
use shootr::mailbox::Mailbox;
use shootr::model::ActorKind;
use shootr::model::ClientMsg;
use shootr::model::Key;

const BALL_ID: u64 = 9000;

fn up(pressed: bool) -> ClientMsg {
    ClientMsg { key: Key::ArrowUp, pressed, fired: false }
}

fn down(pressed: bool) -> ClientMsg {
    ClientMsg { key: Key::ArrowDown, pressed, fired: false }
}

// Tick rate 30 gives a 33 ms tick; a 100 ms frame triggers three
// simulation steps and leaves one millisecond of residual lag.
#[test]
fn catch_up_three_steps() {
    let mut game = Game::new(30, BALL_ID);
    assert_eq!(33, game.tick_duration);
    let r = game.frame(100);
    assert_eq!(3, r.steps);
    assert_eq!(1, game.lag);
    assert_eq!(32, r.sleep_ms);
}

#[test]
fn residual_lag_carries_over() {
    let mut game = Game::new(30, BALL_ID);
    let r1 = game.frame(40);
    assert_eq!(1, r1.steps);
    assert_eq!(7, game.lag);
    // 7 carried + 30 elapsed: one more step, 4 left
    let r2 = game.frame(30);
    assert_eq!(1, r2.steps);
    assert_eq!(4, game.lag);
}

#[test]
fn short_frame_runs_no_step() {
    let mut game = Game::new(30, BALL_ID);
    let r = game.frame(10);
    assert_eq!(0, r.steps);
    assert_eq!(10, game.lag);
}

#[test]
fn ticks_are_published_in_order() {
    let mut game = Game::new(100, BALL_ID);
    let r1 = game.frame(0);
    let r2 = game.frame(0);
    let r3 = game.frame(0);
    assert_eq!(0, r1.tick);
    assert_eq!(1, r2.tick);
    assert_eq!(2, r3.tick);
    assert_eq!(2, game.current_tick);
}

// A connect that sends one ArrowUp press and disconnects before the first
// drain: after one frame its player entity exists with the full upward
// acceleration; after the next frame's despawn phase it is gone and no
// outbound message targets it any more.
#[test]
fn connect_input_disconnect_spans_two_frames() {
    let mut game = Game::new(30, BALL_ID);
    game.record_connect(1);
    game.record_input(1, up(true));
    game.record_disconnect(1);
    let r1 = game.frame(40);
    assert_eq!(1, r1.steps);
    let idx = game.world.find_actor(1).expect("player spawned");
    assert_eq!(-5, game.world.entities[idx].acc.y);
    assert!(r1.outbound.iter().any(|m| m.recipient == 1));
    let r2 = game.frame(40);
    assert_eq!(vec![1u64], r2.despawned);
    assert!(game.world.find_actor(1).is_none());
    assert!(r2.outbound.iter().all(|m| m.recipient != 1));
}

// A failed send is reported as a disconnect; the connection despawns in
// the next frame without touching the other player.
#[test]
fn send_failure_despawns_only_that_connection() {
    let mut game = Game::new(30, BALL_ID);
    game.record_connect(1);
    game.record_connect(2);
    game.record_input(2, down(true));
    let _ = game.frame(40);
    // the transport found connection 1's handle closed
    game.record_disconnect(1);
    let r = game.frame(40);
    assert_eq!(vec![1u64], r.despawned);
    assert!(game.world.find_actor(1).is_none());
    let idx = game.world.find_actor(2).expect("other player untouched");
    assert_eq!(5, game.world.entities[idx].acc.y);
    assert!(r.outbound.iter().any(|m| m.recipient == 2));
}

#[test]
fn key_history_is_capped_at_ten() {
    let mut game = Game::new(30, BALL_ID);
    game.record_connect(7);
    for i in 0..25 {
        game.record_input(7, up(i % 2 == 0));
    }
    let _ = game.frame(40);
    let idx = game.world.find_actor(7).unwrap();
    let player = game.world.entities[idx].player.as_ref().unwrap();
    assert_eq!(10, player.key_history.len());
}

#[test]
fn arrow_up_release_resets_acceleration() {
    let mut game = Game::new(30, BALL_ID);
    game.record_connect(3);
    game.record_input(3, up(true));
    let _ = game.frame(40);
    let idx = game.world.find_actor(3).unwrap();
    assert_eq!(-5, game.world.entities[idx].acc.y);
    game.record_input(3, up(false));
    let _ = game.frame(40);
    let idx = game.world.find_actor(3).unwrap();
    assert_eq!(0, game.world.entities[idx].acc.y);
}

#[test]
fn opposite_key_survives_release_of_the_other() {
    let mut game = Game::new(30, BALL_ID);
    game.record_connect(3);
    game.record_input(3, down(true));
    game.record_input(3, up(false));
    let _ = game.frame(40);
    let idx = game.world.find_actor(3).unwrap();
    // releasing ArrowUp only cancels an upward acceleration
    assert_eq!(5, game.world.entities[idx].acc.y);
}

// The first recorded event pushes an empty snapshot: no key state is
// recorded until a snapshot exists to extend.
#[test]
fn first_snapshot_records_no_key() {
    let mut game = Game::new(30, BALL_ID);
    game.record_connect(4);
    game.record_input(4, up(true));
    game.record_input(4, up(false));
    let _ = game.frame(40);
    let idx = game.world.find_actor(4).unwrap();
    let player = game.world.entities[idx].player.as_ref().unwrap();
    assert_eq!(2, player.key_history.len());
    assert!(player.key_history[0].key_states.up.is_none());
    let last = player.key_history[1].key_states.up.unwrap();
    assert!(!last.pressed);
}

// Each drain observes a connection id at most once and empties the
// structure: a second drain in the same frame returns nothing.
#[test]
fn inputs_drain_exactly_once() {
    let mut mailbox = Mailbox::new();
    mailbox.record_input(1, up(true));
    mailbox.record_input(2, down(true));
    mailbox.record_input(1, up(false));
    let drained = mailbox.drain_inputs();
    assert_eq!(2, drained.len());
    for i in 0..drained.len() {
        for j in 0..i {
            assert_ne!(drained[i].0, drained[j].0);
        }
    }
    let one = drained.iter().find(|e| e.0 == 1).unwrap();
    assert_eq!(vec![up(true), up(false)], one.1);
    assert!(mailbox.drain_inputs().is_empty());
}

#[test]
fn connects_are_deduplicated() {
    let mut mailbox = Mailbox::new();
    mailbox.record_connect(5);
    mailbox.record_connect(5);
    mailbox.record_disconnect(6);
    mailbox.record_disconnect(6);
    assert_eq!(vec![5u64], mailbox.drain_spawns());
    assert_eq!(vec![6u64], mailbox.drain_despawns());
    assert!(mailbox.drain_spawns().is_empty());
    assert!(mailbox.drain_despawns().is_empty());
}

// One connect yields exactly one entity even if the same client keeps the
// connection over several frames.
#[test]
fn one_connect_one_entity() {
    let mut game = Game::new(30, BALL_ID);
    game.record_connect(8);
    let r1 = game.frame(40);
    assert_eq!(1, r1.spawned.len());
    let before = game.world.entities.len();
    let r2 = game.frame(40);
    assert_eq!(0, r2.spawned.len());
    assert_eq!(before, game.world.entities.len());
}

// The ball spawns at the default position and physics moves it by its
// velocity each simulation step.
#[test]
fn ball_moves_each_step() {
    let mut game = Game::new(30, BALL_ID);
    let _ = game.frame(40);
    // first frame: the ball registers at the spawn point, then moves once
    assert_eq!(Some((504, 504)), game.collision.get_pos(BALL_ID));
    let _ = game.frame(40);
    assert_eq!(Some((508, 508)), game.collision.get_pos(BALL_ID));
}

#[test]
fn snapshot_lists_ball_and_players() {
    let mut game = Game::new(30, BALL_ID);
    game.record_connect(11);
    let _ = game.frame(40);
    let r = game.frame(40);
    let msg = r.outbound.iter().find(|m| m.recipient == 11).unwrap();
    assert!(msg.actors.iter().any(|a| a.id == BALL_ID && a.kind == ActorKind::Ball));
    assert!(msg.actors.iter().any(|a| a.id == 11 && a.kind == ActorKind::Player));
}

#[test]
fn despawn_removes_collision_body() {
    let mut game = Game::new(30, BALL_ID);
    game.record_connect(12);
    let _ = game.frame(40);
    assert!(game.collision.get_pos(12).is_some());
    game.record_disconnect(12);
    let _ = game.frame(40);
    assert!(game.collision.get_pos(12).is_none());
}
