use shootr::collision::CollisionWorld;
use shootr::model::Acceleration;
use shootr::model::Actor;
use shootr::model::ActorKind;
use shootr::model::ClientMsg;
use shootr::model::Key;
use shootr::model::PlayerInput;
use shootr::model::Vel;
use shootr::system::bounce;
use shootr::system::handle_key_state;
use shootr::system::physics;
use shootr::system::update_player_inputs;
use shootr::world::EntityWorld;

fn ball(world: &mut EntityWorld, id: u64, vel: Vel) -> u64 {
    world.create(Actor { id, kind: ActorKind::Ball }, None, vel)
}

#[test]
fn bounce_reflects_at_the_edge() {
    let mut world = EntityWorld::new();
    let _ = ball(&mut world, 1, Vel { x: -4, y: 3 });
    let mut coll = CollisionWorld::new(1000, 1000);
    assert!(coll.register(1, 0, 500));
    bounce(&mut world, &coll);
    assert_eq!(4, world.entities[0].vel.x);
    assert_eq!(3, world.entities[0].vel.y);
}

#[test]
fn bounce_leaves_interior_bodies_alone() {
    let mut world = EntityWorld::new();
    let _ = ball(&mut world, 1, Vel { x: -4, y: 3 });
    let mut coll = CollisionWorld::new(1000, 1000);
    assert!(coll.register(1, 500, 500));
    bounce(&mut world, &coll);
    assert_eq!(-4, world.entities[0].vel.x);
    assert_eq!(3, world.entities[0].vel.y);
}

#[test]
fn physics_integrates_and_clamps_at_bounds() {
    let mut world = EntityWorld::new();
    let _ = ball(&mut world, 1, Vel { x: 6, y: -9 });
    let mut coll = CollisionWorld::new(1000, 1000);
    assert!(coll.register(1, 997, 3));
    physics(&mut world, &mut coll);
    // velocity is unchanged with zero acceleration; the body stops at the
    // arena edges instead of leaving them
    assert_eq!(6, world.entities[0].vel.x);
    assert_eq!(-9, world.entities[0].vel.y);
    assert_eq!(Some((1000, 0)), coll.get_pos(1));
}

#[test]
fn collision_world_tracks_one_body_per_id() {
    let mut coll = CollisionWorld::new(1000, 1000);
    assert!(coll.register(1, 10, 20));
    assert!(!coll.register(1, 30, 40));
    assert_eq!(Some((10, 20)), coll.get_pos(1));
    assert!(coll.update_pos(1, 30, 40));
    assert_eq!(Some((30, 40)), coll.get_pos(1));
    assert!(coll.remove_body(1));
    assert_eq!(None, coll.get_pos(1));
    assert!(!coll.remove_body(1));
}

#[test]
fn arrow_up_press_and_release() {
    let mut acc = Acceleration { x: 0, y: 0 };
    handle_key_state(&mut acc, &ClientMsg { key: Key::ArrowUp, pressed: true, fired: false });
    assert_eq!(-5, acc.y);
    handle_key_state(&mut acc, &ClientMsg { key: Key::ArrowUp, pressed: false, fired: false });
    assert_eq!(0, acc.y);
}

#[test]
fn arrow_down_release_keeps_upward_acceleration() {
    let mut acc = Acceleration { x: 0, y: -5 };
    handle_key_state(&mut acc, &ClientMsg { key: Key::ArrowDown, pressed: false, fired: false });
    assert_eq!(-5, acc.y);
}

#[test]
fn history_snapshot_extends_the_last_one() {
    let mut history: Vec<PlayerInput> = Vec::new();
    update_player_inputs(
        &mut history,
        &ClientMsg { key: Key::ArrowUp, pressed: true, fired: false },
    );
    update_player_inputs(
        &mut history,
        &ClientMsg { key: Key::ArrowDown, pressed: true, fired: true },
    );
    update_player_inputs(
        &mut history,
        &ClientMsg { key: Key::ArrowUp, pressed: false, fired: false },
    );
    assert_eq!(3, history.len());
    // the first event found no snapshot to extend and recorded nothing
    assert!(history[0].key_states.up.is_none());
    // later snapshots carry both keys' latest states forward
    let second = history[1].key_states;
    assert!(second.up.is_none());
    assert!(second.down.unwrap().pressed);
    let third = history[2].key_states;
    assert!(!third.up.unwrap().pressed);
    assert!(third.down.unwrap().pressed);
}
