//! The systems pipeline: the ordered transformations run against the
//! entity world each tick.  Input handling, spawn, physics and bounce form
//! the simulation phase (run zero or more times per frame); sending and
//! despawn form the network phase (run exactly once per frame).

use vstd::prelude::*;

use crate::collision::Body;
use crate::collision::CollisionWorld;
use crate::mailbox::distinct_input_keys;
use crate::mailbox::find_input_index;
use crate::model::apply_all;
use crate::model::apply_key_state;
use crate::model::history_after;
use crate::model::next_snapshot;
use crate::model::trim_history;
use crate::model::Acceleration;
use crate::model::ActorKind;
use crate::model::ActorSnapshot;
use crate::model::ClientMsg;
use crate::model::Id;
use crate::model::Key;
use crate::model::KeyState;
use crate::model::KeyStates;
use crate::model::OutMsg;
use crate::model::Player;
use crate::model::PlayerInput;
use crate::model::Vel;
use crate::model::KEY_HISTORY_CAP;
use crate::model::VEL_LIMIT;
use crate::util::clamp;
use crate::util::spec_clamp;
use crate::world::wf_entities;
use crate::world::Entity;
use crate::world::EntityWorld;

verus! {

/// Default position at which a newly spawned body is registered.
pub const SPAWN_X: i64 = 500;

/// Default position at which a newly spawned body is registered.
pub const SPAWN_Y: i64 = 500;

/// The queue a drained input batch holds for one connection id; empty when
/// the batch has no entry for it.
pub open spec fn queue_in(s: Seq<(Id, Vec<ClientMsg>)>, id: Id) -> Seq<ClientMsg>
    decreases s.len(),
{
    if s.len() == 0 {
        Seq::empty()
    } else if s[0].0 == id {
        s[0].1@
    } else {
        queue_in(s.drop_first(), id)
    }
}

/// Under distinct keys, the entry holding an id is what `queue_in` finds.
pub proof fn lemma_queue_in_at(s: Seq<(Id, Vec<ClientMsg>)>, k: int, id: Id)
    requires
        distinct_input_keys(s),
        0 <= k < s.len(),
        s[k].0 == id,
    ensures
        queue_in(s, id) == s[k].1@,
    decreases s.len(),
{
    if k == 0 {
    } else {
        assert(s[0].0 != id);
        assert(distinct_input_keys(s.drop_first())) by {
            assert forall|i: int, j: int|
                0 <= i < j < s.drop_first().len() implies s.drop_first()[i].0
                != s.drop_first()[j].0 by {
                assert(s.drop_first()[i] == s[i + 1]);
                assert(s.drop_first()[j] == s[j + 1]);
            }
        }
        assert(s.drop_first()[k - 1] == s[k]);
        lemma_queue_in_at(s.drop_first(), k - 1, id);
    }
}

/// A batch with no entry for an id holds the empty queue for it.
pub proof fn lemma_queue_in_absent(s: Seq<(Id, Vec<ClientMsg>)>, id: Id)
    requires
        forall|j: int| 0 <= j < s.len() ==> s[j].0 != id,
    ensures
        queue_in(s, id) == Seq::<ClientMsg>::empty(),
    decreases s.len(),
{
    if s.len() > 0 {
        assert forall|j: int|
            0 <= j < s.drop_first().len() implies s.drop_first()[j].0 != id by {
            assert(s.drop_first()[j] == s[j + 1]);
        }
        lemma_queue_in_absent(s.drop_first(), id);
    }
}

/// How one pass of the input handler transforms one entity: a player's
/// acceleration folds the drained queue of its connection, its key history
/// records each event and is then trimmed; everything else is untouched.
pub open spec fn input_processed(e0: Entity, e1: Entity, inputs: Seq<(Id, Vec<ClientMsg>)>) -> bool {
    &&& e1.key == e0.key
    &&& e1.actor == e0.actor
    &&& e1.vel == e0.vel
    &&& e1.to_spawn == e0.to_spawn
    &&& e1.to_despawn == e0.to_despawn
    &&& e1.doomed == e0.doomed
    &&& (e0.player is None ==> e1 == e0)
    &&& (e0.player is Some ==> {
        let q = queue_in(inputs, e0.actor.id);
        &&& e1.acc == apply_all(e0.acc, q)
        &&& e1.player is Some
        &&& e1.player->0.key_history@ == trim_history(
            history_after(e0.player->0.key_history@, q),
        )
    })
}

/// Applies one input event's key-transition rule to an acceleration:
/// a press of ArrowUp requests the full upward acceleration, its release
/// cancels a still-upward acceleration; symmetrically for ArrowDown.
pub fn handle_key_state(acc: &mut Acceleration, msg: &ClientMsg)
    ensures
        *final(acc) == apply_key_state(*old(acc), *msg),
{
    match msg.key {
        Key::ArrowUp => {
            if msg.pressed {
                acc.y = -5;
            } else if acc.y < 0 {
                acc.y = 0;
            }
        }
        Key::ArrowDown => {
            if msg.pressed {
                acc.y = 5;
            } else if acc.y > 0 {
                acc.y = 0;
            }
        }
    }
}

/// Appends one event's snapshot to a key history: the previous snapshot
/// with the event's key updated — or, while the history is still empty, an
/// empty snapshot that records no key.
pub fn update_player_inputs(history: &mut Vec<PlayerInput>, msg: &ClientMsg)
    ensures
        final(history)@ == old(history)@.push(next_snapshot(old(history)@, *msg)),
{
    let n = history.len();
    if n == 0 {
        history.push(PlayerInput { key_states: KeyStates::empty() });
    } else {
        let mut ks = history[n - 1].key_states;
        ks.insert(msg.key, KeyState { pressed: msg.pressed, fired: msg.fired });
        history.push(PlayerInput { key_states: ks });
    }
}

/// Discards all but the most recent `KEY_HISTORY_CAP` history entries,
/// oldest first.
pub fn trim_key_history(history: &mut Vec<PlayerInput>)
    ensures
        final(history)@ == trim_history(old(history)@),
        final(history)@.len() <= KEY_HISTORY_CAP,
{
    let n = history.len();
    if n > KEY_HISTORY_CAP {
        let ghost h0 = history@;
        let start = n - KEY_HISTORY_CAP;
        let mut out: Vec<PlayerInput> = Vec::new();
        let mut i: usize = start;
        while i < n
            invariant
                start <= i <= n,
                n == h0.len(),
                start == n - KEY_HISTORY_CAP,
                history@ == h0,
                out@ =~= h0.subrange(start as int, i as int),
            decreases n - i,
        {
            let entry = history[i];
            out.push(entry);
            proof {
                assert(out@ =~= h0.subrange(start as int, i + 1));
            }
            i = i + 1;
        }
        *history = out;
        proof {
            assert(history@ =~= trim_history(h0));
        }
    }
}

/// The input handler: for every entity with a player component, drains
/// that connection's queue from the batch, in order — each event updates
/// the key history and then applies its key-transition rule — and finally
/// trims the history.  Events for connections with no resolved entity are
/// dropped with the batch.
pub struct InputHandler;

impl InputHandler {
    pub fn run(world: &mut EntityWorld, inputs: &Vec<(Id, Vec<ClientMsg>)>)
        requires
            old(world).wf(),
            distinct_input_keys(inputs@),
        ensures
            final(world).wf(),
            final(world).keys == old(world).keys,
            final(world).entities@.len() == old(world).entities@.len(),
            forall|i: int|
                0 <= i < old(world).entities@.len() ==> input_processed(
                    old(world).entities@[i],
                    #[trigger] final(world).entities@[i],
                    inputs@,
                ),
    {
        let ghost s0 = world.entities@;
        let ghost keys0 = world.keys;
        let n = world.entities.len();
        let mut i: usize = 0;
        while i < n
            invariant
                0 <= i <= n,
                world.wf(),
                world.keys == keys0,
                world.entities@.len() == s0.len(),
                n == s0.len(),
                distinct_input_keys(inputs@),
                forall|j: int| i <= j < s0.len() ==> world.entities@[j] == s0[j],
                forall|j: int|
                    0 <= j < i ==> input_processed(
                        s0[j],
                        #[trigger] world.entities@[j],
                        inputs@,
                    ),
            decreases n - i,
        {
            if world.entities[i].player.is_some() {
                let ghost w0 = world.entities@;
                proof {
                    assert(w0[i as int] == s0[i as int]);
                }
                let mut e = world.entities.remove(i);
                let ghost e0 = e;
                proof {
                    assert(e0 == s0[i as int]);
                }
                let id = e.actor.id;
                let mut player_opt: Option<Player> = None;
                core::mem::swap(&mut player_opt, &mut e.player);
                let ghost q_spec = queue_in(inputs@, id);
                match player_opt {
                    Some(player) => {
                        let mut hist = player.key_history;
                        let ghost h0 = hist@;
                        let ghost acc0 = e.acc;
                        match find_input_index(inputs, id) {
                            Some(k) => {
                                proof {
                                    lemma_queue_in_at(inputs@, k as int, id);
                                }
                                let m = inputs[k].1.len();
                                let mut t: usize = 0;
                                while t < m
                                    invariant
                                        0 <= t <= m,
                                        k < inputs@.len(),
                                        m == inputs@[k as int].1@.len(),
                                        e.acc == apply_all(
                                            acc0,
                                            inputs@[k as int].1@.take(t as int),
                                        ),
                                        hist@ == history_after(
                                            h0,
                                            inputs@[k as int].1@.take(t as int),
                                        ),
                                        e.key == e0.key,
                                        e.actor == e0.actor,
                                        e.vel == e0.vel,
                                        e.to_spawn == e0.to_spawn,
                                        e.to_despawn == e0.to_despawn,
                                        e.doomed == e0.doomed,
                                        e.player is None,
                                    decreases m - t,
                                {
                                    let msg = inputs[k].1[t];
                                    update_player_inputs(&mut hist, &msg);
                                    handle_key_state(&mut e.acc, &msg);
                                    proof {
                                        let qv = inputs@[k as int].1@;
                                        assert(qv.take(t + 1).drop_last() =~= qv.take(t as int));
                                        assert(qv.take(t + 1).last() == qv[t as int]);
                                    }
                                    t = t + 1;
                                }
                                proof {
                                    assert(inputs@[k as int].1@.take(m as int) =~= inputs@[k
                                        as int].1@);
                                }
                            }
                            None => {
                                proof {
                                    lemma_queue_in_absent(inputs@, id);
                                }
                            }
                        }
                        trim_key_history(&mut hist);
                        e.player = Some(Player { key_history: hist });
                        proof {
                            assert(e.acc == apply_all(acc0, q_spec));
                            assert(e.player->0.key_history@ == trim_history(
                                history_after(h0, q_spec),
                            ));
                        }
                    }
                    None => {
                        proof {
                            assert(false);
                        }
                    }
                }
                proof {
                    // bounded acceleration is preserved by every key rule
                    lemma_apply_all_bounds(e0.acc, q_spec);
                }
                world.entities.insert(i, e);
                proof {
                    assert(world.entities@ =~= w0.update(i as int, e));
                    assert(input_processed(s0[i as int], e, inputs@));
                    assert forall|a: int|
                        0 <= a < world.entities@.len() implies (#[trigger] world.entities@[a]).wf()
                        && world.entities@[a].key == s0[a].key && world.entities@[a].actor.id
                        == s0[a].actor.id by {
                        if a == i as int {
                            assert(e.wf());
                        } else {
                            assert(world.entities@[a] == w0[a]);
                            if a < i as int {
                                assert(input_processed(s0[a], w0[a], inputs@));
                            }
                        }
                    }
                    assert(wf_entities(world.entities@, keys0.next)) by {
                        assert forall|a: int, b: int|
                            0 <= a < b < world.entities@.len() implies world.entities@[a].key
                            != world.entities@[b].key && world.entities@[a].actor.id
                            != world.entities@[b].actor.id by {
                            assert(s0[a].key != s0[b].key);
                            assert(s0[a].actor.id != s0[b].actor.id);
                        }
                    }
                }
            }
            i = i + 1;
        }
    }
}

/// Folding a batch of key rules never drives an acceleration axis outside
/// the key-rule magnitudes reachable from its start, and never touches the
/// horizontal axis.
pub proof fn lemma_apply_all_bounds(a: Acceleration, msgs: Seq<ClientMsg>)
    requires
        -5 <= a.y <= 5,
    ensures
        -5 <= apply_all(a, msgs).y <= 5,
        apply_all(a, msgs).x == a.x,
    decreases msgs.len(),
{
    if msgs.len() > 0 {
        lemma_apply_all_bounds(a, msgs.drop_last());
    }
}

/// While ArrowUp is the last event of a pass and is held, the vertical
/// acceleration ends at the full upward value, whatever came before.
pub proof fn lemma_arrow_up_hold(a: Acceleration, msgs: Seq<ClientMsg>)
    requires
        msgs.len() > 0,
        msgs.last().key == Key::ArrowUp,
        msgs.last().pressed,
    ensures
        apply_all(a, msgs).y == -5,
{
}

/// After a pass whose last event releases ArrowUp, the vertical
/// acceleration no longer points upward: a still-upward acceleration is
/// reset to zero by that very event.
pub proof fn lemma_arrow_up_release(a: Acceleration, msgs: Seq<ClientMsg>)
    requires
        msgs.len() > 0,
        msgs.last().key == Key::ArrowUp,
        !msgs.last().pressed,
    ensures
        apply_all(a, msgs).y >= 0,
{
}

/// The key history replay buffer never exceeds its cap after a pass,
/// however large the input burst within the pass was.
pub proof fn lemma_key_history_cap(h: Seq<PlayerInput>, msgs: Seq<ClientMsg>)
    ensures
        trim_history(history_after(h, msgs)).len() <= KEY_HISTORY_CAP,
{
}

/// The same entity with its spawn marker cleared.
pub open spec fn spawn_cleared(e: Entity) -> Entity {
    Entity { to_spawn: false, ..e }
}

/// One of the first `n` entities carries the spawn marker for this id.
pub open spec fn spawn_marked_before(s: Seq<Entity>, n: int, id: Id) -> bool {
    exists|j: int| 0 <= j < n && (#[trigger] s[j]).to_spawn && s[j].actor.id == id
}

/// The spawn system: performs the one-time registration of every entity
/// carrying the spawn marker — its body enters the collision world at the
/// default position — and removes the marker, so that it never persists
/// across ticks.  An id that already owns a body keeps it.
pub fn spawn(world: &mut EntityWorld, coll: &mut CollisionWorld)
    requires
        old(world).wf(),
        old(coll).wf(),
        old(coll).in_bounds(SPAWN_X, SPAWN_Y),
    ensures
        final(world).wf(),
        final(coll).wf(),
        final(world).keys == old(world).keys,
        final(world).entities@.len() == old(world).entities@.len(),
        forall|i: int|
            0 <= i < old(world).entities@.len() ==> #[trigger] final(world).entities@[i]
                == spawn_cleared(old(world).entities@[i]),
        final(coll).x_bounds == old(coll).x_bounds,
        final(coll).y_bounds == old(coll).y_bounds,
        old(coll).bodies@.len() <= final(coll).bodies@.len(),
        forall|k: int|
            0 <= k < old(coll).bodies@.len() ==> #[trigger] final(coll).bodies@[k] == old(
                coll,
            ).bodies@[k],
        forall|k: int|
            old(coll).bodies@.len() <= k < final(coll).bodies@.len()
                ==> (#[trigger] final(coll).bodies@[k]).x == SPAWN_X
                && final(coll).bodies@[k].y == SPAWN_Y,
        forall|i: int|
            0 <= i < old(world).entities@.len() && (#[trigger] old(world).entities@[i]).to_spawn
                ==> final(coll).has_body(old(world).entities@[i].actor.id),
        forall|id: Id| old(coll).has_body(id) ==> final(coll).has_body(id),
        forall|k: int|
            old(coll).bodies@.len() <= k < final(coll).bodies@.len() ==> spawn_marked_before(
                old(world).entities@,
                old(world).entities@.len() as int,
                (#[trigger] final(coll).bodies@[k]).id,
            ),
    {
        let ghost s0 = world.entities@;
        let ghost keys0 = world.keys;
        let ghost c0 = *coll;
        let n = world.entities.len();
        let mut i: usize = 0;
        while i < n
            invariant
                0 <= i <= n,
                world.wf(),
                world.keys == keys0,
                world.entities@.len() == s0.len(),
                n == s0.len(),
                wf_entities(s0, keys0.next),
                forall|j: int| i <= j < s0.len() ==> world.entities@[j] == s0[j],
                forall|j: int|
                    0 <= j < i ==> #[trigger] world.entities@[j] == spawn_cleared(s0[j]),
                coll.wf(),
                coll.x_bounds == c0.x_bounds,
                coll.y_bounds == c0.y_bounds,
                c0.in_bounds(SPAWN_X, SPAWN_Y),
                c0.bodies@.len() <= coll.bodies@.len(),
                forall|k: int|
                    0 <= k < c0.bodies@.len() ==> #[trigger] coll.bodies@[k] == c0.bodies@[k],
                forall|k: int|
                    c0.bodies@.len() <= k < coll.bodies@.len()
                        ==> (#[trigger] coll.bodies@[k]).x == SPAWN_X && coll.bodies@[k].y
                        == SPAWN_Y,
                forall|j: int|
                    0 <= j < i && (#[trigger] s0[j]).to_spawn ==> coll.has_body(s0[j].actor.id),
                forall|id: Id| c0.has_body(id) ==> coll.has_body(id),
                forall|k: int|
                    c0.bodies@.len() <= k < coll.bodies@.len() ==> spawn_marked_before(
                        s0,
                        i as int,
                        (#[trigger] coll.bodies@[k]).id,
                    ),
            decreases n - i,
        {
            if world.entities[i].to_spawn {
                let ghost w0 = world.entities@;
                let ghost cpre = *coll;
                let mut e = world.entities.remove(i);
                let id = e.actor.id;
                let _ = coll.register(id, SPAWN_X, SPAWN_Y);
                e.to_spawn = false;
                world.entities.insert(i, e);
                proof {
                    assert(world.entities@ =~= w0.update(i as int, e));
                    assert(world.entities@[i as int] == spawn_cleared(s0[i as int]));
                    assert forall|k: int|
                        0 <= k < c0.bodies@.len() implies #[trigger] coll.bodies@[k]
                        == c0.bodies@[k] by {
                        assert(coll.bodies@[k] == cpre.bodies@[k]);
                    }
                    assert forall|j: int|
                        0 <= j < i + 1 && (#[trigger] s0[j]).to_spawn implies coll.has_body(
                        s0[j].actor.id,
                    ) by {
                        if j < i as int {
                            let w = choose|w: int|
                                0 <= w < cpre.bodies@.len() && cpre.bodies@[w].id == s0[j].actor.id;
                            assert(coll.bodies@[w].id == s0[j].actor.id);
                        }
                    }
                    assert forall|id2: Id| c0.has_body(id2) implies coll.has_body(id2) by {
                        let w = choose|w: int|
                            0 <= w < c0.bodies@.len() && c0.bodies@[w].id == id2;
                        assert(coll.bodies@[w].id == id2);
                    }
                    assert forall|k: int|
                        c0.bodies@.len() <= k < coll.bodies@.len() implies spawn_marked_before(
                        s0,
                        i + 1,
                        (#[trigger] coll.bodies@[k]).id,
                    ) by {
                        if k < cpre.bodies@.len() {
                            assert(spawn_marked_before(s0, i as int, cpre.bodies@[k].id));
                            let j = choose|j: int|
                                0 <= j < i && (#[trigger] s0[j]).to_spawn && s0[j].actor.id
                                    == cpre.bodies@[k].id;
                            assert(coll.bodies@[k] == cpre.bodies@[k]);
                            assert(s0[j].to_spawn && s0[j].actor.id == coll.bodies@[k].id);
                        } else {
                            assert(coll.bodies@[k].id == id);
                            assert(s0[i as int].to_spawn && s0[i as int].actor.id
                                == coll.bodies@[k].id);
                        }
                    }
                    assert(wf_entities(world.entities@, keys0.next)) by {
                        assert forall|a: int, b: int|
                            0 <= a < b < world.entities@.len() implies world.entities@[a].key
                            != world.entities@[b].key && world.entities@[a].actor.id
                            != world.entities@[b].actor.id by {
                            assert(s0[a].key != s0[b].key);
                            assert(s0[a].actor.id != s0[b].actor.id);
                        }
                    }
                }
            } else {
                proof {
                    assert forall|k: int|
                        c0.bodies@.len() <= k < coll.bodies@.len() implies spawn_marked_before(
                        s0,
                        i + 1,
                        (#[trigger] coll.bodies@[k]).id,
                    ) by {
                        assert(spawn_marked_before(s0, i as int, coll.bodies@[k].id));
                        let j = choose|j: int|
                            0 <= j < i && (#[trigger] s0[j]).to_spawn && s0[j].actor.id == (
                            coll.bodies@[k]).id;
                        assert(s0[j].to_spawn && s0[j].actor.id == coll.bodies@[k].id);
                    }
                }
            }
            i = i + 1;
        }
    }

/// What one physics tick makes of a velocity: the acceleration is added
/// and the result restricted to the velocity limit.
pub open spec fn stepped_vel(e: Entity) -> Vel {
    Vel {
        x: spec_clamp(e.vel.x + e.acc.x, -VEL_LIMIT as int, VEL_LIMIT as int) as i64,
        y: spec_clamp(e.vel.y + e.acc.y, -VEL_LIMIT as int, VEL_LIMIT as int) as i64,
    }
}

/// The same entity with one physics tick applied to its velocity.
pub open spec fn physics_stepped(e: Entity) -> Entity {
    Entity { vel: stepped_vel(e), ..e }
}

/// What one physics tick makes of a body: it moves by the owning entity's
/// new velocity, restricted to the arena bounds.
pub open spec fn moved_body(b: Body, v: Vel, c: CollisionWorld) -> Body {
    Body {
        id: b.id,
        x: spec_clamp(b.x + v.x, c.x_bounds.min as int, c.x_bounds.max as int) as i64,
        y: spec_clamp(b.y + v.y, c.y_bounds.min as int, c.y_bounds.max as int) as i64,
    }
}

/// The physics system: for every entity, folds the acceleration into the
/// velocity and moves the entity's body by the new velocity, keeping it
/// inside the arena.  A body whose id matches no entity does not move.
pub fn physics(world: &mut EntityWorld, coll: &mut CollisionWorld)
    requires
        old(world).wf(),
        old(coll).wf(),
        old(coll).x_bounds.min - VEL_LIMIT >= i64::MIN,
        old(coll).x_bounds.max + VEL_LIMIT <= i64::MAX,
        old(coll).y_bounds.min - VEL_LIMIT >= i64::MIN,
        old(coll).y_bounds.max + VEL_LIMIT <= i64::MAX,
    ensures
        final(world).wf(),
        final(coll).wf(),
        final(world).keys == old(world).keys,
        final(world).entities@.len() == old(world).entities@.len(),
        forall|i: int|
            0 <= i < old(world).entities@.len() ==> #[trigger] final(world).entities@[i]
                == physics_stepped(old(world).entities@[i]),
        final(coll).x_bounds == old(coll).x_bounds,
        final(coll).y_bounds == old(coll).y_bounds,
        final(coll).bodies@.len() == old(coll).bodies@.len(),
        forall|k: int|
            0 <= k < old(coll).bodies@.len() ==> (#[trigger] final(coll).bodies@[k]).id == old(
                coll,
            ).bodies@[k].id,
        forall|j: int, k: int|
            #![trigger old(world).entities@[j], final(coll).bodies@[k]]
            0 <= j < old(world).entities@.len() && 0 <= k < old(coll).bodies@.len()
                && old(world).entities@[j].actor.id == old(coll).bodies@[k].id
                ==> final(coll).bodies@[k] == moved_body(
                old(coll).bodies@[k],
                stepped_vel(old(world).entities@[j]),
                *old(coll),
            ),
        forall|k: int|
            0 <= k < old(coll).bodies@.len() && (forall|j: int|
                0 <= j < old(world).entities@.len()
                    ==> (#[trigger] old(world).entities@[j]).actor.id != old(
                    coll,
                ).bodies@[k].id) ==> #[trigger] final(coll).bodies@[k] == old(coll).bodies@[k],
    {
        let ghost s0 = world.entities@;
        let ghost keys0 = world.keys;
        let ghost c0 = *coll;
        let xmin = coll.x_bounds.min;
        let xmax = coll.x_bounds.max;
        let ymin = coll.y_bounds.min;
        let ymax = coll.y_bounds.max;
        let n = world.entities.len();
        let mut i: usize = 0;
        while i < n
            invariant
                0 <= i <= n,
                world.wf(),
                world.keys == keys0,
                world.entities@.len() == s0.len(),
                n == s0.len(),
                wf_entities(s0, keys0.next),
                forall|j: int| i <= j < s0.len() ==> world.entities@[j] == s0[j],
                forall|j: int|
                    0 <= j < i ==> #[trigger] world.entities@[j] == physics_stepped(s0[j]),
                coll.wf(),
                coll.x_bounds == c0.x_bounds,
                coll.y_bounds == c0.y_bounds,
                xmin == c0.x_bounds.min,
                xmax == c0.x_bounds.max,
                ymin == c0.y_bounds.min,
                ymax == c0.y_bounds.max,
                c0.x_bounds.min - VEL_LIMIT >= i64::MIN,
                c0.x_bounds.max + VEL_LIMIT <= i64::MAX,
                c0.y_bounds.min - VEL_LIMIT >= i64::MIN,
                c0.y_bounds.max + VEL_LIMIT <= i64::MAX,
                coll.bodies@.len() == c0.bodies@.len(),
                forall|k: int|
                    0 <= k < c0.bodies@.len() ==> (#[trigger] coll.bodies@[k]).id
                        == c0.bodies@[k].id,
                forall|j: int, k: int|
                    0 <= j < i && 0 <= k < c0.bodies@.len() && s0[j].actor.id == c0.bodies@[k].id
                        ==> #[trigger] coll.bodies@[k] == moved_body(
                        c0.bodies@[k],
                        stepped_vel(#[trigger] s0[j]),
                        c0,
                    ),
                forall|k: int|
                    0 <= k < c0.bodies@.len() && (forall|j: int|
                        0 <= j < i ==> (#[trigger] s0[j]).actor.id != c0.bodies@[k].id)
                        ==> #[trigger] coll.bodies@[k] == c0.bodies@[k],
            decreases n - i,
        {
            let ghost w0 = world.entities@;
            let ghost cpre = *coll;
            let mut e = world.entities.remove(i);
            let ghost e0 = e;
            proof {
                assert(e0 == s0[i as int]);
            }
            let id = e.actor.id;
            let nvx = clamp(e.vel.x + e.acc.x, -VEL_LIMIT, VEL_LIMIT);
            let nvy = clamp(e.vel.y + e.acc.y, -VEL_LIMIT, VEL_LIMIT);
            e.vel = Vel { x: nvx, y: nvy };
            world.entities.insert(i, e);
            proof {
                assert(world.entities@ =~= w0.update(i as int, e));
                assert(e == physics_stepped(s0[i as int]));
                assert(wf_entities(world.entities@, keys0.next)) by {
                    assert forall|a: int, b: int|
                        0 <= a < b < world.entities@.len() implies world.entities@[a].key
                        != world.entities@[b].key && world.entities@[a].actor.id
                        != world.entities@[b].actor.id by {
                        assert(s0[a].key != s0[b].key);
                        assert(s0[a].actor.id != s0[b].actor.id);
                    }
                }
            }
            match coll.get_pos(id) {
                Some((bx, by)) => {
                    proof {
                        assert forall|k: int|
                            0 <= k < cpre.bodies@.len() && cpre.bodies@[k].id == id
                            implies cpre.bodies@[k] == (Body { id, x: bx, y: by }) by {
                            let w = cpre.body_index(id);
                            assert(cpre.bodies@[w].id == id);
                            if w != k {
                                assert(false);
                            }
                        }
                    }
                    let nx = clamp(bx + nvx, xmin, xmax);
                    let ny = clamp(by + nvy, ymin, ymax);
                    let _ = coll.update_pos(id, nx, ny);
                    proof {
                        assert forall|j: int, k: int|
                            0 <= j < i + 1 && 0 <= k < c0.bodies@.len() && s0[j].actor.id
                            == c0.bodies@[k].id implies #[trigger] coll.bodies@[k] == moved_body(
                            c0.bodies@[k],
                            stepped_vel(#[trigger] s0[j]),
                            c0,
                        ) by {
                            if j == i as int {
                                assert(cpre.bodies@[k].id == id);
                                assert(cpre.bodies@[k] == (Body { id, x: bx, y: by }));
                                assert(c0.bodies@[k].id == id);
                                assert forall|j2: int| 0 <= j2 < i as int implies (
                                #[trigger] s0[j2]).actor.id != c0.bodies@[k].id by {
                                    assert(s0[j2].actor.id != s0[i as int].actor.id);
                                }
                                assert(cpre.bodies@[k] == c0.bodies@[k]);
                                assert(coll.bodies@[k] == (Body { id, x: nx, y: ny }));
                            } else {
                                assert(s0[j].actor.id != id);
                                assert(cpre.bodies@[k].id != id);
                                assert(coll.bodies@[k] == cpre.bodies@[k]);
                            }
                        }
                        assert forall|k: int|
                            0 <= k < c0.bodies@.len() && (forall|j: int|
                                0 <= j < i + 1 ==> (#[trigger] s0[j]).actor.id
                                    != c0.bodies@[k].id) implies #[trigger] coll.bodies@[k]
                            == c0.bodies@[k] by {
                            assert(s0[i as int].actor.id != c0.bodies@[k].id);
                            assert(cpre.bodies@[k].id != id);
                            assert(coll.bodies@[k] == cpre.bodies@[k]);
                        }
                    }
                }
                None => {
                    proof {
                        assert forall|j: int, k: int|
                            0 <= j < i + 1 && 0 <= k < c0.bodies@.len() && s0[j].actor.id
                            == c0.bodies@[k].id implies #[trigger] coll.bodies@[k] == moved_body(
                            c0.bodies@[k],
                            stepped_vel(#[trigger] s0[j]),
                            c0,
                        ) by {
                            if j == i as int {
                                assert(coll.bodies@[k].id == id);
                                assert(coll.has_body(id));
                                assert(false);
                            }
                        }
                    }
                }
            }
            i = i + 1;
        }
    }

/// What the bounce system makes of a velocity: an axis is reflected when
/// the entity's body touches that axis's arena edge.
pub open spec fn bounced_vel(e: Entity, c: CollisionWorld) -> Vel {
    if c.has_body(e.actor.id) {
        let p = c.spec_pos(e.actor.id);
        Vel {
            x: if p.0 == c.x_bounds.min || p.0 == c.x_bounds.max {
                (-e.vel.x) as i64
            } else {
                e.vel.x
            },
            y: if p.1 == c.y_bounds.min || p.1 == c.y_bounds.max {
                (-e.vel.y) as i64
            } else {
                e.vel.y
            },
        }
    } else {
        e.vel
    }
}

/// The same entity with the bounce rule applied to its velocity.
pub open spec fn bounced(e: Entity, c: CollisionWorld) -> Entity {
    Entity { vel: bounced_vel(e, c), ..e }
}

/// The bounce system: queries each entity's body and reflects the
/// velocity component of every axis whose arena edge the body touches.
pub fn bounce(world: &mut EntityWorld, coll: &CollisionWorld)
    requires
        old(world).wf(),
        coll.wf(),
    ensures
        final(world).wf(),
        final(world).keys == old(world).keys,
        final(world).entities@.len() == old(world).entities@.len(),
        forall|i: int|
            0 <= i < old(world).entities@.len() ==> #[trigger] final(world).entities@[i]
                == bounced(old(world).entities@[i], *coll),
    {
        let ghost s0 = world.entities@;
        let ghost keys0 = world.keys;
        let n = world.entities.len();
        let mut i: usize = 0;
        while i < n
            invariant
                0 <= i <= n,
                world.wf(),
                world.keys == keys0,
                world.entities@.len() == s0.len(),
                n == s0.len(),
                wf_entities(s0, keys0.next),
                coll.wf(),
                forall|j: int| i <= j < s0.len() ==> world.entities@[j] == s0[j],
                forall|j: int|
                    0 <= j < i ==> #[trigger] world.entities@[j] == bounced(s0[j], *coll),
            decreases n - i,
        {
            let ghost w0 = world.entities@;
            let mut e = world.entities.remove(i);
            let ghost e0 = e;
            proof {
                assert(e0 == s0[i as int]);
            }
            let id = e.actor.id;
            match coll.get_pos(id) {
                Some((bx, by)) => {
                    let nvx = if bx == coll.x_bounds.min || bx == coll.x_bounds.max {
                        -e.vel.x
                    } else {
                        e.vel.x
                    };
                    let nvy = if by == coll.y_bounds.min || by == coll.y_bounds.max {
                        -e.vel.y
                    } else {
                        e.vel.y
                    };
                    e.vel = Vel { x: nvx, y: nvy };
                }
                None => {}
            }
            world.entities.insert(i, e);
            proof {
                assert(world.entities@ =~= w0.update(i as int, e));
                assert(e == bounced(s0[i as int], *coll));
                assert(wf_entities(world.entities@, keys0.next)) by {
                    assert forall|a: int, b: int|
                        0 <= a < b < world.entities@.len() implies world.entities@[a].key
                        != world.entities@[b].key && world.entities@[a].actor.id
                        != world.entities@[b].actor.id by {
                        assert(s0[a].key != s0[b].key);
                        assert(s0[a].actor.id != s0[b].actor.id);
                    }
                }
            }
            i = i + 1;
        }
    }

/// An entity that appears in the world snapshot pushed to clients: it is
/// past its one-time registration, not on its way out, and owns a body.
pub open spec fn shown(e: Entity, c: CollisionWorld) -> bool {
    !e.to_spawn && !e.to_despawn && !e.doomed && c.has_body(e.actor.id)
}

/// The snapshot record for one shown entity.
pub open spec fn snap_of(e: Entity, c: CollisionWorld) -> ActorSnapshot {
    ActorSnapshot {
        id: e.actor.id,
        kind: e.actor.kind,
        x: c.spec_pos(e.actor.id).0,
        y: c.spec_pos(e.actor.id).1,
    }
}

/// The full world snapshot: every shown entity, in arena order.
pub open spec fn snapshot_items(s: Seq<Entity>, c: CollisionWorld) -> Seq<ActorSnapshot>
    decreases s.len(),
{
    if s.len() == 0 {
        Seq::empty()
    } else if shown(s.last(), c) {
        snapshot_items(s.drop_last(), c).push(snap_of(s.last(), c))
    } else {
        snapshot_items(s.drop_last(), c)
    }
}

/// A player entity that the sending phase addresses: despawning entities
/// never re-enter the sending iteration.
pub open spec fn is_recipient(e: Entity) -> bool {
    &&& e.player is Some
    &&& !e.to_spawn
    &&& !e.to_despawn
    &&& !e.doomed
}

/// The connection ids addressed by one sending pass, in arena order.
pub open spec fn recipient_ids(s: Seq<Entity>) -> Seq<Id>
    decreases s.len(),
{
    if s.len() == 0 {
        Seq::empty()
    } else if is_recipient(s.last()) {
        recipient_ids(s.drop_last()).push(s.last().actor.id)
    } else {
        recipient_ids(s.drop_last())
    }
}

/// An id is addressed by the sending pass exactly when a recipient player
/// entity carries it.
pub proof fn lemma_recipient_ids_contains(s: Seq<Entity>)
    ensures
        forall|id: Id|
            #[trigger] recipient_ids(s).contains(id) <==> (exists|j: int|
                0 <= j < s.len() && is_recipient(#[trigger] s[j]) && s[j].actor.id == id),
    decreases s.len(),
{
    if s.len() > 0 {
        lemma_recipient_ids_contains(s.drop_last());
        assert forall|id: Id|
            #[trigger] recipient_ids(s).contains(id) <==> (exists|j: int|
                0 <= j < s.len() && is_recipient(#[trigger] s[j]) && s[j].actor.id == id) by {
            let r = recipient_ids(s);
            let rp = recipient_ids(s.drop_last());
            if r.contains(id) {
                let w = choose|w: int| 0 <= w < r.len() && (#[trigger] r[w]) == id;
                if is_recipient(s.last()) && w == r.len() - 1 {
                    assert(is_recipient(s[s.len() - 1]) && s[s.len() - 1].actor.id == id);
                } else {
                    assert(rp[w] == id);
                    assert(rp.contains(id));
                    let j = choose|j: int|
                        0 <= j < s.drop_last().len() && is_recipient(
                            #[trigger] s.drop_last()[j],
                        ) && s.drop_last()[j].actor.id == id;
                    assert(is_recipient(s[j]) && s[j].actor.id == id);
                }
            }
            if exists|j: int|
                0 <= j < s.len() && is_recipient(#[trigger] s[j]) && s[j].actor.id == id {
                let j = choose|j: int|
                    0 <= j < s.len() && is_recipient(#[trigger] s[j]) && s[j].actor.id == id;
                if j == s.len() - 1 {
                    assert(r.last() == id);
                } else {
                    assert(is_recipient(s.drop_last()[j]) && s.drop_last()[j].actor.id == id);
                    assert(rp.contains(id));
                    let w = choose|w: int| 0 <= w < rp.len() && (#[trigger] rp[w]) == id;
                    assert(r[w] == id);
                }
            }
        }
    }
}

/// Collects the world snapshot that the sending phase pushes to every
/// recipient.
fn build_snapshot(world: &EntityWorld, coll: &CollisionWorld) -> (r: Vec<ActorSnapshot>)
    requires
        coll.wf(),
    ensures
        r@ == snapshot_items(world.entities@, *coll),
{
    let ghost s = world.entities@;
    let n = world.entities.len();
    let mut out: Vec<ActorSnapshot> = Vec::new();
    let mut i: usize = 0;
    while i < n
        invariant
            0 <= i <= n,
            n == s.len(),
            world.entities@ == s,
            coll.wf(),
            out@ == snapshot_items(s.take(i as int), *coll),
        decreases n - i,
    {
        proof {
            assert(s.take(i + 1).drop_last() =~= s.take(i as int));
            assert(s.take(i + 1).last() == s[i as int]);
        }
        let e_to_spawn = world.entities[i].to_spawn;
        let e_to_despawn = world.entities[i].to_despawn;
        let e_doomed = world.entities[i].doomed;
        let id = world.entities[i].actor.id;
        let kind = world.entities[i].actor.kind;
        if !e_to_spawn && !e_to_despawn && !e_doomed {
            match coll.get_pos(id) {
                Some((bx, by)) => {
                    out.push(ActorSnapshot { id, kind, x: bx, y: by });
                    proof {
                        assert(out@ =~= snapshot_items(s.take(i + 1), *coll));
                    }
                }
                None => {}
            }
        }
        i = i + 1;
    }
    proof {
        assert(s.take(n as int) =~= s);
    }
    out
}

/// The sending system: prepares, for every recipient player, one outbound
/// message holding the full world snapshot.  The transport layer routes
/// each message by its recipient id and reports a failed send as a
/// disconnect; nothing here blocks on the network.
pub fn sending(world: &EntityWorld, coll: &CollisionWorld) -> (r: Vec<OutMsg>)
    requires
        coll.wf(),
    ensures
        r@.len() == recipient_ids(world.entities@).len(),
        forall|k: int|
            0 <= k < r@.len() ==> (#[trigger] r@[k]).recipient == recipient_ids(
                world.entities@,
            )[k] && r@[k].actors@ == snapshot_items(world.entities@, *coll),
    {
        let ghost s = world.entities@;
        let n = world.entities.len();
        let mut out: Vec<OutMsg> = Vec::new();
        let mut i: usize = 0;
        while i < n
            invariant
                0 <= i <= n,
                n == s.len(),
                world.entities@ == s,
                coll.wf(),
                out@.len() == recipient_ids(s.take(i as int)).len(),
                forall|k: int|
                    0 <= k < out@.len() ==> (#[trigger] out@[k]).recipient == recipient_ids(
                        s.take(i as int),
                    )[k] && out@[k].actors@ == snapshot_items(s, *coll),
            decreases n - i,
        {
            proof {
                assert(s.take(i + 1).drop_last() =~= s.take(i as int));
                assert(s.take(i + 1).last() == s[i as int]);
            }
            let e_to_spawn = world.entities[i].to_spawn;
            let e_to_despawn = world.entities[i].to_despawn;
            let e_doomed = world.entities[i].doomed;
            let id = world.entities[i].actor.id;
            if world.entities[i].player.is_some() && !e_to_spawn && !e_to_despawn && !e_doomed {
                let actors = build_snapshot(world, coll);
                out.push(OutMsg { recipient: id, actors });
            }
            i = i + 1;
        }
        proof {
            assert(s.take(n as int) =~= s);
        }
        out
    }

/// The entity as the physics tick of one phase sees it: the input batch
/// folded into the acceleration and the spawn marker consumed, the
/// velocity not yet stepped.
pub open spec fn input_applied_entity(e: Entity, inputs: Seq<(Id, Vec<ClientMsg>)>) -> Entity {
    if e.player is Some {
        Entity { acc: apply_all(e.acc, queue_in(inputs, e.actor.id)), to_spawn: false, ..e }
    } else {
        Entity { to_spawn: false, ..e }
    }
}

/// One run of the simulation phase: input handling, then spawn, then
/// physics, then bounce, in their fixed dependency order.  The phase never
/// creates or deletes an entity, never changes an identity and never
/// touches the despawn markers; every spawn marker it sees is consumed,
/// its entity's body registered; every body moves one physics tick.
pub fn simulation_phase(
    world: &mut EntityWorld,
    coll: &mut CollisionWorld,
    inputs: &Vec<(Id, Vec<ClientMsg>)>,
)
    requires
        old(world).wf(),
        old(coll).wf(),
        distinct_input_keys(inputs@),
        old(coll).in_bounds(SPAWN_X, SPAWN_Y),
        old(coll).x_bounds.min - VEL_LIMIT >= i64::MIN,
        old(coll).x_bounds.max + VEL_LIMIT <= i64::MAX,
        old(coll).y_bounds.min - VEL_LIMIT >= i64::MIN,
        old(coll).y_bounds.max + VEL_LIMIT <= i64::MAX,
    ensures
        final(world).wf(),
        final(coll).wf(),
        final(world).keys == old(world).keys,
        final(coll).x_bounds == old(coll).x_bounds,
        final(coll).y_bounds == old(coll).y_bounds,
        final(world).entities@.len() == old(world).entities@.len(),
        forall|i: int|
            0 <= i < old(world).entities@.len() ==> {
                let e0 = old(world).entities@[i];
                let e1 = #[trigger] final(world).entities@[i];
                let q = queue_in(inputs@, e0.actor.id);
                &&& e1.key == e0.key
                &&& e1.actor == e0.actor
                &&& e1.to_despawn == e0.to_despawn
                &&& e1.doomed == e0.doomed
                &&& !e1.to_spawn
                &&& (e1.player is Some <==> e0.player is Some)
                &&& e1.acc == input_applied_entity(e0, inputs@).acc
                &&& (e0.player is Some ==> e1.acc == apply_all(e0.acc, q))
                &&& (e0.player is None ==> e1.acc == e0.acc)
                &&& (e0.player is Some ==> e1.player->0.key_history@ == trim_history(
                    history_after(e0.player->0.key_history@, q),
                ))
                &&& e1.vel == bounced_vel(
                    physics_stepped(input_applied_entity(e0, inputs@)),
                    *final(coll),
                )
            },
        // the collision world after the phase: spawn-marked entities got a
        // body, and every body matched by an entity moved one physics tick
        old(coll).bodies@.len() <= final(coll).bodies@.len(),
        forall|k: int|
            0 <= k < old(coll).bodies@.len() ==> (#[trigger] final(coll).bodies@[k]).id == old(
                coll,
            ).bodies@[k].id,
        forall|i: int|
            0 <= i < old(world).entities@.len() && (#[trigger] old(world).entities@[i]).to_spawn
                ==> final(coll).has_body(old(world).entities@[i].actor.id),
        forall|id: Id| old(coll).has_body(id) ==> final(coll).has_body(id),
        forall|j: int, k: int|
            #![trigger old(world).entities@[j], final(coll).bodies@[k]]
            0 <= j < old(world).entities@.len() && 0 <= k < old(coll).bodies@.len()
                && old(world).entities@[j].actor.id == old(coll).bodies@[k].id
                ==> final(coll).bodies@[k] == moved_body(
                old(coll).bodies@[k],
                stepped_vel(input_applied_entity(old(world).entities@[j], inputs@)),
                *old(coll),
            ),
        forall|k: int|
            0 <= k < old(coll).bodies@.len() && (forall|j: int|
                0 <= j < old(world).entities@.len()
                    ==> (#[trigger] old(world).entities@[j]).actor.id
                    != old(coll).bodies@[k].id)
                ==> #[trigger] final(coll).bodies@[k] == old(coll).bodies@[k],
        forall|j: int, k: int|
            #![trigger old(world).entities@[j], final(coll).bodies@[k]]
            0 <= j < old(world).entities@.len()
                && old(coll).bodies@.len() <= k < final(coll).bodies@.len()
                && old(world).entities@[j].actor.id == final(coll).bodies@[k].id
                ==> final(coll).bodies@[k] == moved_body(
                Body { id: old(world).entities@[j].actor.id, x: SPAWN_X, y: SPAWN_Y },
                stepped_vel(input_applied_entity(old(world).entities@[j], inputs@)),
                *old(coll),
            ),
        forall|k: int|
            old(coll).bodies@.len() <= k < final(coll).bodies@.len() ==> spawn_marked_before(
                old(world).entities@,
                old(world).entities@.len() as int,
                (#[trigger] final(coll).bodies@[k]).id,
            ),
{
    let ghost s0 = world.entities@;
    let ghost c0 = *coll;
    InputHandler::run(world, inputs);
    let ghost s1 = world.entities@;
    spawn(world, coll);
    let ghost s2 = world.entities@;
    let ghost c1 = *coll;
    physics(world, coll);
    let ghost s3 = world.entities@;
    let ghost c2 = *coll;
    bounce(world, coll);
    proof {
        assert forall|i: int|
            0 <= i < s0.len() implies {
            let e0 = s0[i];
            let e1 = #[trigger] world.entities@[i];
            let q = queue_in(inputs@, e0.actor.id);
            &&& e1.key == e0.key
            &&& e1.actor == e0.actor
            &&& e1.to_despawn == e0.to_despawn
            &&& e1.doomed == e0.doomed
            &&& !e1.to_spawn
            &&& (e1.player is Some <==> e0.player is Some)
            &&& e1.acc == input_applied_entity(e0, inputs@).acc
            &&& (e0.player is Some ==> e1.acc == apply_all(e0.acc, q))
            &&& (e0.player is None ==> e1.acc == e0.acc)
            &&& (e0.player is Some ==> e1.player->0.key_history@ == trim_history(
                history_after(e0.player->0.key_history@, q),
            ))
            &&& e1.vel == bounced_vel(physics_stepped(input_applied_entity(e0, inputs@)), c2)
        } by {
            assert(input_processed(s0[i], s1[i], inputs@));
            assert(s2[i] == spawn_cleared(s1[i]));
            assert(s3[i] == physics_stepped(s2[i]));
            assert(world.entities@[i] == bounced(s3[i], *coll));
            let mid = input_applied_entity(s0[i], inputs@);
            assert(stepped_vel(s2[i]) == stepped_vel(mid));
            assert(s3[i].vel == physics_stepped(mid).vel);
            assert(s3[i].actor == physics_stepped(mid).actor);
            assert(bounced_vel(s3[i], c2) == bounced_vel(physics_stepped(mid), c2));
        }
        // bounce leaves the collision world alone
        assert(*coll == c2);
        // old bodies kept their indices and ids through spawn and physics
        assert forall|k: int|
            0 <= k < c0.bodies@.len() implies (#[trigger] coll.bodies@[k]).id
            == c0.bodies@[k].id by {
            assert(c1.bodies@[k] == c0.bodies@[k]);
        }
        assert forall|i: int|
            0 <= i < s0.len() && (#[trigger] s0[i]).to_spawn implies coll.has_body(
            s0[i].actor.id,
        ) by {
            assert(s1[i].to_spawn && s1[i].actor.id == s0[i].actor.id);
            assert(c1.has_body(s1[i].actor.id));
            let w = choose|w: int|
                0 <= w < c1.bodies@.len() && c1.bodies@[w].id == s0[i].actor.id;
            assert(coll.bodies@[w].id == c1.bodies@[w].id);
        }
        assert forall|id: Id| c0.has_body(id) implies coll.has_body(id) by {
            assert(c1.has_body(id));
            let w = choose|w: int| 0 <= w < c1.bodies@.len() && c1.bodies@[w].id == id;
            assert(coll.bodies@[w].id == c1.bodies@[w].id);
        }
        assert forall|j: int, k: int|
            #![trigger s0[j], coll.bodies@[k]]
            0 <= j < s0.len() && 0 <= k < c0.bodies@.len() && s0[j].actor.id
                == c0.bodies@[k].id implies coll.bodies@[k] == moved_body(
            c0.bodies@[k],
            stepped_vel(input_applied_entity(s0[j], inputs@)),
            c0,
        ) by {
            let mid = input_applied_entity(s0[j], inputs@);
            assert(c1.bodies@[k] == c0.bodies@[k]);
            assert(s2[j].actor.id == c1.bodies@[k].id);
            assert(c2.bodies@[k] == moved_body(c1.bodies@[k], stepped_vel(s2[j]), c1));
            assert(stepped_vel(s2[j]) == stepped_vel(mid));
            assert(moved_body(c1.bodies@[k], stepped_vel(mid), c1) == moved_body(
                c0.bodies@[k],
                stepped_vel(mid),
                c0,
            ));
        }
        assert forall|k: int|
            0 <= k < c0.bodies@.len() && (forall|j: int|
                0 <= j < s0.len() ==> (#[trigger] s0[j]).actor.id != c0.bodies@[k].id)
            implies #[trigger] coll.bodies@[k] == c0.bodies@[k] by {
            assert(c1.bodies@[k] == c0.bodies@[k]);
            assert forall|j: int|
                0 <= j < s2.len() implies (#[trigger] s2[j]).actor.id != c1.bodies@[k].id by {
                assert(s2[j].actor.id == s0[j].actor.id);
            }
            assert(c2.bodies@[k] == c1.bodies@[k]);
        }
        assert forall|j: int, k: int|
            #![trigger s0[j], coll.bodies@[k]]
            0 <= j < s0.len() && c0.bodies@.len() <= k < coll.bodies@.len() && s0[j].actor.id
                == coll.bodies@[k].id implies coll.bodies@[k] == moved_body(
            Body { id: s0[j].actor.id, x: SPAWN_X, y: SPAWN_Y },
            stepped_vel(input_applied_entity(s0[j], inputs@)),
            c0,
        ) by {
            let mid = input_applied_entity(s0[j], inputs@);
            assert(c1.bodies@.len() == c2.bodies@.len());
            assert(c2.bodies@[k].id == c1.bodies@[k].id);
            assert(c1.bodies@[k].x == SPAWN_X && c1.bodies@[k].y == SPAWN_Y);
            assert(c1.bodies@[k] == (Body { id: s0[j].actor.id, x: SPAWN_X, y: SPAWN_Y }));
            assert(s2[j].actor.id == c1.bodies@[k].id);
            assert(c2.bodies@[k] == moved_body(c1.bodies@[k], stepped_vel(s2[j]), c1));
            assert(stepped_vel(s2[j]) == stepped_vel(mid));
            assert(moved_body(c1.bodies@[k], stepped_vel(mid), c1) == moved_body(
                c1.bodies@[k],
                stepped_vel(mid),
                c0,
            ));
        }
        assert forall|k: int|
            c0.bodies@.len() <= k < coll.bodies@.len() implies spawn_marked_before(
            s0,
            s0.len() as int,
            (#[trigger] coll.bodies@[k]).id,
        ) by {
            assert(coll.bodies@[k].id == c1.bodies@[k].id);
            assert(spawn_marked_before(s1, s1.len() as int, c1.bodies@[k].id));
            let j = choose|j: int|
                0 <= j < s1.len() && (#[trigger] s1[j]).to_spawn && s1[j].actor.id
                    == c1.bodies@[k].id;
            assert(s0[j].to_spawn && s0[j].actor.id == c1.bodies@[k].id);
        }
    }
}

/// The same entity with its removal requested.
pub open spec fn doom_marked(e: Entity) -> Entity {
    Entity { doomed: true, ..e }
}

/// The connection ids of the entities marked for despawn, in arena order.
pub open spec fn marked_ids(s: Seq<Entity>) -> Seq<Id>
    decreases s.len(),
{
    if s.len() == 0 {
        Seq::empty()
    } else if s.last().to_despawn {
        marked_ids(s.drop_last()).push(s.last().actor.id)
    } else {
        marked_ids(s.drop_last())
    }
}

/// The despawn system: every entity marked for despawn loses its body in
/// the collision world, its removal is requested, and world maintenance
/// then physically deletes it.  The marked ids come back to the caller so
/// the transport layer can drop their send handles; by the end no marked
/// or removal-requested entity remains.
pub fn despawn(world: &mut EntityWorld, coll: &mut CollisionWorld) -> (removed: Vec<Id>)
    requires
        old(world).wf(),
        old(coll).wf(),
    ensures
        final(world).wf(),
        final(coll).wf(),
        final(world).keys == old(world).keys,
        final(coll).x_bounds == old(coll).x_bounds,
        final(coll).y_bounds == old(coll).y_bounds,
        removed@ == marked_ids(old(world).entities@),
        forall|id: Id| old(world).has_marked(id) ==> !final(world).has_actor_id(id),
        forall|i: int|
            0 <= i < old(world).entities@.len()
                && !(#[trigger] old(world).entities@[i]).to_despawn
                && !old(world).entities@[i].doomed
                ==> final(world).entities@.contains(old(world).entities@[i]),
        forall|k: int|
            0 <= k < final(world).entities@.len()
                ==> !(#[trigger] final(world).entities@[k]).to_despawn
                && !final(world).entities@[k].doomed
                && old(world).entities@.contains(final(world).entities@[k]),
        forall|id: Id|
            final(coll).has_body(id) <==> (old(coll).has_body(id) && !old(world).has_marked(id)),
    {
        let ghost s0 = world.entities@;
        let ghost keys0 = world.keys;
        let ghost c0 = *coll;
        let mut removed: Vec<Id> = Vec::new();
        let n = world.entities.len();
        let mut i: usize = 0;
        while i < n
            invariant
                0 <= i <= n,
                world.wf(),
                world.keys == keys0,
                world.entities@.len() == s0.len(),
                n == s0.len(),
                wf_entities(s0, keys0.next),
                forall|j: int| i <= j < s0.len() ==> world.entities@[j] == s0[j],
                forall|j: int|
                    0 <= j < i ==> #[trigger] world.entities@[j] == (if s0[j].to_despawn {
                        doom_marked(s0[j])
                    } else {
                        s0[j]
                    }),
                removed@ == marked_ids(s0.take(i as int)),
            decreases n - i,
        {
            proof {
                assert(s0.take(i + 1).drop_last() =~= s0.take(i as int));
                assert(s0.take(i + 1).last() == s0[i as int]);
            }
            if world.entities[i].to_despawn {
                let ghost w0 = world.entities@;
                let mut e = world.entities.remove(i);
                removed.push(e.actor.id);
                e.doomed = true;
                world.entities.insert(i, e);
                proof {
                    assert(world.entities@ =~= w0.update(i as int, e));
                    assert(wf_entities(world.entities@, keys0.next)) by {
                        assert forall|a: int, b: int|
                            0 <= a < b < world.entities@.len() implies world.entities@[a].key
                            != world.entities@[b].key && world.entities@[a].actor.id
                            != world.entities@[b].actor.id by {
                            assert(s0[a].key != s0[b].key);
                            assert(s0[a].actor.id != s0[b].actor.id);
                        }
                    }
                    assert(removed@ =~= marked_ids(s0.take(i + 1)));
                }
            }
            i = i + 1;
        }
        proof {
            assert(s0.take(n as int) =~= s0);
        }
        let ghost w1 = world.entities@;
        let m = removed.len();
        let mut t: usize = 0;
        while t < m
            invariant
                0 <= t <= m,
                m == removed@.len(),
                removed@ == marked_ids(s0),
                coll.wf(),
                coll.x_bounds == c0.x_bounds,
                coll.y_bounds == c0.y_bounds,
                forall|id: Id| #[trigger]
                    coll.has_body(id) <==> (c0.has_body(id) && !removed@.take(t as int).contains(
                        id,
                    )),
            decreases m - t,
        {
            let ghost cpre = *coll;
            let id = removed[t];
            let _ = coll.remove_body(id);
            proof {
                assert forall|id2: Id| #[trigger]
                    coll.has_body(id2) <==> (c0.has_body(id2) && !removed@.take(t + 1).contains(
                        id2,
                    )) by {
                    if id2 == id {
                        assert(removed@.take(t + 1)[t as int] == id);
                        assert(removed@.take(t + 1).contains(id));
                        assert(!coll.has_body(id));
                    } else {
                        assert(cpre.has_body(id2) <==> (c0.has_body(id2) && !removed@.take(
                            t as int,
                        ).contains(id2)));
                        assert(removed@.take(t + 1).contains(id2) <==> removed@.take(
                            t as int,
                        ).contains(id2)) by {
                            if removed@.take(t + 1).contains(id2) {
                                let w = choose|w: int|
                                    0 <= w < removed@.take(t + 1).len() && (
                                    #[trigger] removed@.take(t + 1)[w]) == id2;
                                assert(removed@.take(t as int)[w] == id2);
                            }
                            if removed@.take(t as int).contains(id2) {
                                let w = choose|w: int|
                                    0 <= w < removed@.take(t as int).len() && (
                                    #[trigger] removed@.take(t as int)[w]) == id2;
                                assert(removed@.take(t + 1)[w] == id2);
                            }
                        }
                        assert(coll.has_body(id2) <==> cpre.has_body(id2)) by {
                            if cpre.has_body(id) {
                                let k = cpre.body_index(id);
                                assert(cpre.bodies@[k].id == id);
                                assert(coll.bodies@ == cpre.bodies@.remove(k));
                                cpre.bodies@.remove_ensures(k);
                                if cpre.has_body(id2) {
                                    let w = choose|w: int|
                                        0 <= w < cpre.bodies@.len() && (
                                        #[trigger] cpre.bodies@[w]).id == id2;
                                    assert(w != k);
                                    if w < k {
                                        assert(coll.bodies@[w] == cpre.bodies@[w]);
                                        assert(coll.bodies@[w].id == id2);
                                    } else {
                                        assert(coll.bodies@[w - 1] == cpre.bodies@[w]);
                                        assert(coll.bodies@[w - 1].id == id2);
                                    }
                                }
                                if coll.has_body(id2) {
                                    let w = choose|w: int|
                                        0 <= w < coll.bodies@.len() && (
                                        #[trigger] coll.bodies@[w]).id == id2;
                                    if w < k {
                                        assert(coll.bodies@[w] == cpre.bodies@[w]);
                                        assert(cpre.bodies@[w].id == id2);
                                    } else {
                                        assert(coll.bodies@[w] == cpre.bodies@[w + 1]);
                                        assert(cpre.bodies@[w + 1].id == id2);
                                    }
                                }
                            } else {
                                assert(coll.bodies@ == cpre.bodies@);
                            }
                        }
                    }
                }
            }
            t = t + 1;
        }
        proof {
            assert(removed@.take(m as int) =~= removed@);
        }
        world.maintain();
        proof {
            lemma_despawn_world_shape(s0, w1, world.entities@);
            lemma_marked_ids_body(s0, c0, removed@, *coll);
            assert forall|id: Id|
                old(world).has_marked(id) implies !world.has_actor_id(id) by {
                let j = choose|j: int|
                    0 <= j < s0.len() && s0[j].actor.id == id && s0[j].to_despawn;
                assert(s0[j].to_despawn);
            }
        }
        removed
    }

/// After the mark pass and maintenance, exactly the unmarked, clean
/// entities survive, unchanged; no marked id keeps a live entity.
proof fn lemma_despawn_world_shape(s0: Seq<Entity>, w1: Seq<Entity>, w2: Seq<Entity>)
    requires
        forall|i: int, j: int| 0 <= i < j < s0.len() ==> s0[i].actor.id != s0[j].actor.id,
        w1.len() == s0.len(),
        forall|j: int|
            0 <= j < s0.len() ==> #[trigger] w1[j] == (if s0[j].to_despawn {
                doom_marked(s0[j])
            } else {
                s0[j]
            }),
        forall|k: int| 0 <= k < w2.len() ==> !(#[trigger] w2[k]).doomed,
        forall|k: int| 0 <= k < w2.len() ==> w1.contains(#[trigger] w2[k]),
        forall|j: int| 0 <= j < w1.len() && !(#[trigger] w1[j]).doomed ==> w2.contains(w1[j]),
    ensures
        forall|j: int|
            0 <= j < s0.len() && (#[trigger] s0[j]).to_despawn ==> !(exists|k: int|
                0 <= k < w2.len() && w2[k].actor.id == s0[j].actor.id),
        forall|i: int|
            0 <= i < s0.len() && !(#[trigger] s0[i]).to_despawn && !s0[i].doomed ==> w2.contains(
                s0[i],
            ),
        forall|k: int|
            0 <= k < w2.len() ==> !(#[trigger] w2[k]).to_despawn && !w2[k].doomed && s0.contains(
                w2[k],
            ),
{
    assert forall|k: int|
        0 <= k < w2.len() implies !(#[trigger] w2[k]).to_despawn && !w2[k].doomed && s0.contains(
        w2[k],
    ) by {
        let j = choose|j: int| 0 <= j < w1.len() && w1[j] == w2[k];
        if s0[j].to_despawn {
            assert(w1[j].doomed);
            assert(false);
        }
        assert(w2[k] == s0[j]);
    }
    assert forall|j: int|
        0 <= j < s0.len() && (#[trigger] s0[j]).to_despawn implies !(exists|k: int|
            0 <= k < w2.len() && w2[k].actor.id == s0[j].actor.id) by {
        let id = s0[j].actor.id;
        if exists|k: int| 0 <= k < w2.len() && w2[k].actor.id == id {
            let k = choose|k: int| 0 <= k < w2.len() && w2[k].actor.id == id;
            let p = choose|p: int| 0 <= p < s0.len() && s0[p] == w2[k];
            assert(!s0[p].to_despawn);
            assert(p != j);
            assert(s0[p].actor.id != s0[j].actor.id);
            assert(false);
        }
    }
    assert forall|i: int|
        0 <= i < s0.len() && !(#[trigger] s0[i]).to_despawn && !s0[i].doomed implies w2.contains(
        s0[i],
    ) by {
        assert(w1[i] == s0[i]);
        assert(w2.contains(w1[i]));
    }
}

/// The ids whose bodies the despawn pass removed are exactly the marked
/// ids, so a body survives exactly when its id was not marked.
proof fn lemma_marked_ids_body(s0: Seq<Entity>, c0: CollisionWorld, removed: Seq<Id>, c1: CollisionWorld)
    requires
        removed == marked_ids(s0),
        forall|id: Id| c1.has_body(id) <==> (c0.has_body(id) && !removed.contains(id)),
    ensures
        forall|id: Id|
            c1.has_body(id) <==> (c0.has_body(id) && !(exists|j: int|
                0 <= j < s0.len() && s0[j].actor.id == id && s0[j].to_despawn)),
{
    lemma_marked_ids_contains(s0);
}

/// An id occurs among the marked ids exactly when some entity carries the
/// despawn mark for it.
pub proof fn lemma_marked_ids_contains(s: Seq<Entity>)
    ensures
        forall|id: Id|
            marked_ids(s).contains(id) <==> (exists|j: int|
                0 <= j < s.len() && s[j].actor.id == id && s[j].to_despawn),
    decreases s.len(),
{
    if s.len() > 0 {
        lemma_marked_ids_contains(s.drop_last());
        assert forall|id: Id|
            marked_ids(s).contains(id) <==> (exists|j: int|
                0 <= j < s.len() && s[j].actor.id == id && s[j].to_despawn) by {
            if marked_ids(s).contains(id) {
                if s.last().to_despawn && s.last().actor.id == id {
                    assert(s[s.len() - 1].actor.id == id && s[s.len() - 1].to_despawn);
                } else {
                    let w = choose|w: int|
                        0 <= w < marked_ids(s).len() && marked_ids(s)[w] == id;
                    if s.last().to_despawn {
                        if w < marked_ids(s.drop_last()).len() {
                            assert(marked_ids(s.drop_last()).contains(id));
                        } else {
                            assert(id == s.last().actor.id);
                        }
                    } else {
                        assert(marked_ids(s.drop_last()).contains(id));
                    }
                    if marked_ids(s.drop_last()).contains(id) {
                        let j = choose|j: int|
                            0 <= j < s.drop_last().len() && s.drop_last()[j].actor.id == id
                                && s.drop_last()[j].to_despawn;
                        assert(s[j].actor.id == id && s[j].to_despawn);
                    }
                }
            }
            if exists|j: int| 0 <= j < s.len() && s[j].actor.id == id && s[j].to_despawn {
                let j = choose|j: int|
                    0 <= j < s.len() && s[j].actor.id == id && s[j].to_despawn;
                if j == s.len() - 1 {
                    assert(marked_ids(s).last() == id);
                } else {
                    assert(s.drop_last()[j].actor.id == id && s.drop_last()[j].to_despawn);
                    assert(marked_ids(s.drop_last()).contains(id));
                    let w = choose|w: int|
                        0 <= w < marked_ids(s.drop_last()).len() && marked_ids(s.drop_last())[w]
                            == id;
                    assert(marked_ids(s)[w] == id);
                }
            }
        }
    }
}

} // verus!
