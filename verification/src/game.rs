//! The game loop scheduler: owns the entity world, the collision world,
//! the connection mailbox and the fixed-timestep lag accumulator.  The
//! caller's loop reads the clock, hands each frame the elapsed wall-clock
//! milliseconds, performs the prepared sends, and sleeps for the returned
//! remainder of the frame budget; everything the frame decides happens
//! here.

use vstd::prelude::*;

use crate::collision::CollisionWorld;
use crate::mailbox::Mailbox;
use crate::model::Acceleration;
use crate::model::Actor;
use crate::model::ActorKind;
use crate::model::Bounds;
use crate::model::ClientMsg;
use crate::model::Id;
use crate::model::OutMsg;
use crate::model::Player;
use crate::model::Spawnable;
use crate::model::Vel;
use crate::system::despawn;
use crate::system::recipient_ids;
use crate::system::sending;
use crate::system::simulation_phase;
use crate::util::SeqIdGen;
use crate::world::despawn_marked;
use crate::world::Entity;
use crate::world::EntityWorld;

verus! {

/// Arena width used by the collision world.
pub const ARENA_WIDTH: i64 = 1000;

/// Arena height used by the collision world.
pub const ARENA_HEIGHT: i64 = 1000;

/// Initial per-axis velocity of the ball.
pub const BALL_VEL: i64 = 4;

/// The despawn requests deferred by one drain: the ids that were pending
/// both as spawns and as despawns, in despawn order.  Such a connection
/// spawns this frame and despawns cleanly one frame later.
pub open spec fn deferred_ids(despawns: Seq<Id>, spawns: Seq<Id>) -> Seq<Id>
    decreases despawns.len(),
{
    if despawns.len() == 0 {
        Seq::empty()
    } else if spawns.contains(despawns.last()) {
        deferred_ids(despawns.drop_last(), spawns).push(despawns.last())
    } else {
        deferred_ids(despawns.drop_last(), spawns)
    }
}

/// An id is deferred exactly when it is pending as both a spawn and a
/// despawn.
pub proof fn lemma_deferred_ids_contains(despawns: Seq<Id>, spawns: Seq<Id>)
    ensures
        forall|id: Id| #[trigger]
            deferred_ids(despawns, spawns).contains(id) <==> (despawns.contains(id)
                && spawns.contains(id)),
    decreases despawns.len(),
{
    if despawns.len() > 0 {
        lemma_deferred_ids_contains(despawns.drop_last(), spawns);
        assert forall|id: Id| #[trigger]
            deferred_ids(despawns, spawns).contains(id) <==> (despawns.contains(id)
                && spawns.contains(id)) by {
            let d = deferred_ids(despawns, spawns);
            let dp = deferred_ids(despawns.drop_last(), spawns);
            if d.contains(id) {
                let w = choose|w: int| 0 <= w < d.len() && (#[trigger] d[w]) == id;
                if spawns.contains(despawns.last()) && w == d.len() - 1 {
                    assert(despawns[despawns.len() - 1] == id);
                } else {
                    assert(dp[w] == id);
                    assert(dp.contains(id));
                    let j = choose|j: int|
                        0 <= j < despawns.drop_last().len() && (#[trigger] despawns.drop_last()[j])
                            == id;
                    assert(despawns[j] == id);
                }
            }
            if despawns.contains(id) && spawns.contains(id) {
                let j = choose|j: int|
                    0 <= j < despawns.len() && (#[trigger] despawns[j]) == id;
                if j == despawns.len() - 1 {
                    assert(d.last() == id);
                } else {
                    assert(despawns.drop_last()[j] == id);
                    assert(dp.contains(id));
                    let w = choose|w: int| 0 <= w < dp.len() && (#[trigger] dp[w]) == id;
                    if spawns.contains(despawns.last()) {
                        assert(d[w] == id);
                    } else {
                        assert(d[w] == id);
                    }
                }
            }
        }
    }
}

/// Everything one frame hands back to the caller's loop.
pub struct FrameResult {
    /// The tick identifier published for this frame.
    pub tick: u64,
    /// How many times the simulation phase ran.
    pub steps: u64,
    /// The prepared world snapshots, one per recipient player.
    pub outbound: Vec<OutMsg>,
    /// The player entities promoted from pending spawns this frame.
    pub spawned: Vec<Spawnable>,
    /// The connection ids whose entities were despawned this frame.
    pub despawned: Vec<Id>,
    /// The remainder of the frame budget, to be slept before the next frame.
    pub sleep_ms: u64,
}

pub struct Game {
    pub world: EntityWorld,
    pub collision: CollisionWorld,
    pub mailbox: Mailbox,
    /// Residual unsimulated wall-clock time carried between frames.
    pub lag: u64,
    pub tick_gen: SeqIdGen,
    /// Fixed simulation timestep, in milliseconds.
    pub tick_duration: u64,
    /// The tick identifier published by the current frame.
    pub current_tick: u64,
}

impl Game {
    pub open spec fn wf(self) -> bool {
        &&& self.world.wf()
        &&& self.collision.wf()
        &&& self.mailbox.wf()
        &&& self.collision.x_bounds == (Bounds { max: ARENA_WIDTH, min: 0i64 })
        &&& self.collision.y_bounds == (Bounds { max: ARENA_HEIGHT, min: 0i64 })
        &&& 1 <= self.tick_duration <= 1000
        &&& self.lag < self.tick_duration
        &&& forall|i: int|
            0 <= i < self.world.entities@.len()
                ==> !(#[trigger] self.world.entities@[i]).to_despawn
                && !self.world.entities@[i].doomed
    }

    /// Prepares the world: a collision arena of fixed bounds, empty
    /// mailboxes, a zero lag accumulator, and the ball entity, which is
    /// self-assigned the given id and spawns on the first frame.  The tick
    /// duration is the frame budget of the configured update rate.
    pub fn new(updates_per_sec: u64, ball_id: Id) -> (r: Game)
        requires
            1 <= updates_per_sec <= 1000,
        ensures
            r.wf(),
            r.tick_duration == 1000u64 / updates_per_sec,
            r.lag == 0,
            r.tick_gen.next == 0,
            r.current_tick == 0,
            r.world.entities@.len() == 1,
            r.world.keys.next == 1,
            r.world.has_actor_id(ball_id),
            // the one entity is the ball, spawn-marked, at rest except for
            // its initial velocity, with no player component
            r.world.entities@[0] == (Entity {
                key: 0,
                actor: Actor { id: ball_id, kind: ActorKind::Ball },
                player: None,
                acc: Acceleration { x: 0, y: 0 },
                vel: Vel { x: BALL_VEL, y: BALL_VEL },
                to_spawn: true,
                to_despawn: false,
                doomed: false,
            }),
            r.collision.x_bounds == (Bounds { max: ARENA_WIDTH, min: 0i64 }),
            r.collision.y_bounds == (Bounds { max: ARENA_HEIGHT, min: 0i64 }),
            r.collision.bodies@ == Seq::<crate::collision::Body>::empty(),
            r.mailbox.pending_spawns@ == Seq::<Id>::empty(),
            r.mailbox.pending_despawns@ == Seq::<Id>::empty(),
            r.mailbox.pending_inputs@ == Seq::<(Id, Vec<ClientMsg>)>::empty(),
    {
        let mut world = EntityWorld::new();
        proof {
            assert(!world.has_actor_id(ball_id));
        }
        let _ = world.create(
            Actor { id: ball_id, kind: ActorKind::Ball },
            None,
            Vel { x: BALL_VEL, y: BALL_VEL },
        );
        let tick_duration = 1000 / updates_per_sec;
        proof {
            assert(1 <= tick_duration <= 1000) by (nonlinear_arith)
                requires
                    1 <= updates_per_sec <= 1000,
                    tick_duration == 1000u64 / updates_per_sec,
            ;
        }
        Game {
            world,
            collision: CollisionWorld::new(ARENA_WIDTH, ARENA_HEIGHT),
            mailbox: Mailbox::new(),
            lag: 0,
            tick_gen: SeqIdGen::new(),
            tick_duration,
            current_tick: 0,
        }
    }

    /// Records a connect for promotion at the next frame's drain.  Safe to
    /// call from any transport context that serialises access to the game.
    pub fn record_connect(&mut self, id: Id)
        requires
            old(self).wf(),
        ensures
            final(self).wf(),
            final(self).world == old(self).world,
            final(self).collision == old(self).collision,
            final(self).lag == old(self).lag,
            final(self).tick_duration == old(self).tick_duration,
            final(self).mailbox.pending_despawns == old(self).mailbox.pending_despawns,
            final(self).mailbox.pending_inputs == old(self).mailbox.pending_inputs,
            old(self).mailbox.pending_spawns@.contains(id) ==> final(self).mailbox.pending_spawns
                == old(self).mailbox.pending_spawns,
            !old(self).mailbox.pending_spawns@.contains(id)
                ==> final(self).mailbox.pending_spawns@ == old(
                self,
            ).mailbox.pending_spawns@.push(id),
    {
        self.mailbox.record_connect(id);
    }

    /// Records a disconnect — reported by the transport layer or concluded
    /// from a failed send — for the next frame's despawn phase.
    pub fn record_disconnect(&mut self, id: Id)
        requires
            old(self).wf(),
        ensures
            final(self).wf(),
            final(self).world == old(self).world,
            final(self).collision == old(self).collision,
            final(self).lag == old(self).lag,
            final(self).tick_duration == old(self).tick_duration,
            final(self).mailbox.pending_spawns == old(self).mailbox.pending_spawns,
            final(self).mailbox.pending_inputs == old(self).mailbox.pending_inputs,
            old(self).mailbox.pending_despawns@.contains(id)
                ==> final(self).mailbox.pending_despawns == old(self).mailbox.pending_despawns,
            !old(self).mailbox.pending_despawns@.contains(id)
                ==> final(self).mailbox.pending_despawns@ == old(
                self,
            ).mailbox.pending_despawns@.push(id),
    {
        self.mailbox.record_disconnect(id);
    }

    /// Records one decoded input message for its connection; the message
    /// joins the back of that connection's queue.
    pub fn record_input(&mut self, id: Id, msg: ClientMsg)
        requires
            old(self).wf(),
        ensures
            final(self).wf(),
            final(self).world == old(self).world,
            final(self).collision == old(self).collision,
            final(self).lag == old(self).lag,
            final(self).tick_duration == old(self).tick_duration,
            final(self).mailbox.pending_spawns == old(self).mailbox.pending_spawns,
            final(self).mailbox.pending_despawns == old(self).mailbox.pending_despawns,
            final(self).mailbox.inputs_view() == old(self).mailbox.inputs_view().insert(
                id,
                old(self).mailbox.queue_view(id).push(msg),
            ),
    {
        self.mailbox.record_input(id, msg);
    }

    /// Drains the mailbox's spawns and despawns.  Every pending spawn id
    /// gets exactly one live player entity (an id that already has one is
    /// left alone); every pending despawn id's entity is marked for this
    /// frame's despawn phase — except an id that also spawned this drain,
    /// whose despawn goes back into the mailbox so that the connection
    /// spawns this frame and despawns cleanly one frame later.
    pub fn register_connections(&mut self) -> (spawned: Vec<Spawnable>)
        requires
            old(self).world.wf(),
            old(self).mailbox.wf(),
            old(self).world.keys.next + old(self).mailbox.pending_spawns@.len() <= u64::MAX,
        ensures
            final(self).world.wf(),
            final(self).mailbox.wf(),
            final(self).collision == old(self).collision,
            final(self).lag == old(self).lag,
            final(self).tick_gen == old(self).tick_gen,
            final(self).tick_duration == old(self).tick_duration,
            final(self).current_tick == old(self).current_tick,
            final(self).mailbox.pending_spawns@ == Seq::<Id>::empty(),
            final(self).mailbox.pending_inputs == old(self).mailbox.pending_inputs,
            final(self).mailbox.pending_despawns@ == deferred_ids(
                old(self).mailbox.pending_despawns@,
                old(self).mailbox.pending_spawns@,
            ),
            // every pending spawn id has exactly one live entity now
            forall|id: Id|
                #[trigger] old(self).mailbox.pending_spawns@.contains(id)
                    ==> final(self).world.has_actor_id(id),
            // the old entities stay in place; only despawn marks are added,
            // and only for ids pending despawn but not also pending spawn
            final(self).world.entities@.len() >= old(self).world.entities@.len(),
            forall|i: int|
                0 <= i < old(self).world.entities@.len()
                    ==> #[trigger] final(self).world.entities@[i]
                    == (if old(self).mailbox.pending_despawns@.contains(
                    old(self).world.entities@[i].actor.id,
                ) && !old(self).mailbox.pending_spawns@.contains(
                    old(self).world.entities@[i].actor.id,
                ) {
                    despawn_marked(old(self).world.entities@[i])
                } else {
                    old(self).world.entities@[i]
                }),
            // the new entities are fresh unmarked players from the spawns,
            // with an empty key history, zero acceleration and no motion
            forall|i: int|
                old(self).world.entities@.len() <= i < final(self).world.entities@.len() ==> {
                    let e = #[trigger] final(self).world.entities@[i];
                    &&& e.to_spawn
                    &&& !e.to_despawn
                    &&& !e.doomed
                    &&& e.actor.kind == ActorKind::Player
                    &&& e.player is Some
                    &&& e.player->0.key_history@ == Seq::<crate::model::PlayerInput>::empty()
                    &&& e.acc == (Acceleration { x: 0, y: 0 })
                    &&& e.vel == (Vel { x: 0, y: 0 })
                    &&& old(self).mailbox.pending_spawns@.contains(e.actor.id)
                    &&& !old(self).world.has_actor_id(e.actor.id)
                },
            // what the caller reports as spawned: exactly the promotions
            forall|k: int|
                0 <= k < spawned@.len() ==> ((#[trigger] spawned@[k]) matches Spawnable::Player(x)
                    && old(self).mailbox.pending_spawns@.contains(x)),
            forall|id: Id|
                #[trigger] old(self).mailbox.pending_spawns@.contains(id)
                    && !old(self).world.has_actor_id(id) ==> spawned@.contains(
                    Spawnable::Player(id),
                ),
    {
        let ghost w0 = self.world.entities@;
        let ghost g0 = *self;
        let spawns = self.mailbox.drain_spawns();
        let ghost sp = spawns@;
        let ghost mb1 = self.mailbox;
        let mut spawned: Vec<Spawnable> = Vec::new();
        let n = spawns.len();
        let mut i: usize = 0;
        while i < n
            invariant
                0 <= i <= n,
                n == sp.len(),
                spawns@ == sp,
                self.collision == g0.collision,
                self.lag == g0.lag,
                self.tick_gen == g0.tick_gen,
                self.tick_duration == g0.tick_duration,
                self.current_tick == g0.current_tick,
                self.mailbox == mb1,
                mb1.wf(),
                mb1.pending_spawns@ == Seq::<Id>::empty(),
                mb1.pending_despawns == g0.mailbox.pending_despawns,
                mb1.pending_inputs == g0.mailbox.pending_inputs,
                self.world.wf(),
                self.world.keys.next + (n - i) <= u64::MAX,
                self.world.entities@.len() >= w0.len(),
                forall|j: int| 0 <= j < w0.len() ==> #[trigger] self.world.entities@[j] == w0[j],
                forall|j: int|
                    w0.len() <= j < self.world.entities@.len() ==> {
                        let e = #[trigger] self.world.entities@[j];
                        &&& e.to_spawn
                        &&& !e.to_despawn
                        &&& !e.doomed
                        &&& e.actor.kind == ActorKind::Player
                        &&& e.player is Some
                        &&& e.player->0.key_history@ == Seq::<crate::model::PlayerInput>::empty()
                        &&& e.acc == (Acceleration { x: 0, y: 0 })
                        &&& e.vel == (Vel { x: 0, y: 0 })
                        &&& (exists|p2: int| 0 <= p2 < i && sp[p2] == e.actor.id)
                        &&& !(exists|a: int| 0 <= a < w0.len() && w0[a].actor.id == e.actor.id)
                    },
                crate::mailbox::distinct_ids(sp),
                forall|p: int|
                    0 <= p < i ==> self.world.has_actor_id(#[trigger] sp[p]),
                forall|k: int|
                    0 <= k < spawned@.len() ==> ((#[trigger] spawned@[k]) matches Spawnable::Player(
                        x,
                    ) && sp.contains(x)),
                forall|p: int|
                    0 <= p < i && !(exists|a: int|
                        0 <= a < w0.len() && w0[a].actor.id == #[trigger] sp[p])
                        ==> spawned@.contains(Spawnable::Player(sp[p])),
            decreases n - i,
        {
            let id = spawns[i];
            let ghost wpre = self.world.entities@;
            let ghost spawned_pre = spawned@;
            match self.world.find_actor(id) {
                None => {
                    let _ = self.world.create(
                        Actor { id, kind: ActorKind::Player },
                        Some(Player::new()),
                        Vel { x: 0, y: 0 },
                    );
                    spawned.push(Spawnable::Player(id));
                    proof {
                        assert(self.world.entities@ == wpre.push(
                            self.world.entities@.last(),
                        ));
                        assert(sp[i as int] == id);
                        assert(sp.contains(id));
                        assert forall|a: int| 0 <= a < w0.len() implies w0[a].actor.id != id by {
                            assert(wpre[a] == w0[a]);
                            assert(wpre[a].actor.id != id);
                        }
                        assert(self.world.entities@.last().actor.kind == ActorKind::Player);
                        assert(spawned@.last() == Spawnable::Player(id));
                        assert forall|p: int|
                            0 <= p < i + 1 && !(exists|a: int|
                                0 <= a < w0.len() && w0[a].actor.id == #[trigger] sp[p])
                            implies spawned@.contains(Spawnable::Player(sp[p])) by {
                            if p < i as int {
                                let k = choose|k: int|
                                    0 <= k < spawned_pre.len() && spawned_pre[k]
                                        == Spawnable::Player(sp[p]);
                                assert(spawned@[k] == Spawnable::Player(sp[p]));
                            } else {
                                assert(spawned@[spawned@.len() - 1] == Spawnable::Player(sp[p]));
                            }
                        }
                        assert forall|p: int|
                            0 <= p < i + 1 implies self.world.has_actor_id(#[trigger] sp[p]) by {
                            if p < i as int {
                                let a = choose|a: int|
                                    0 <= a < wpre.len() && wpre[a].actor.id == sp[p];
                                assert(self.world.entities@[a].actor.id == sp[p]);
                            } else {
                                assert(self.world.entities@.last().actor.id == id);
                            }
                        }
                        assert(spawned@.last() == Spawnable::Player(sp[i as int]));
                    }
                }
                Some(k) => {
                    proof {
                        assert forall|p: int|
                            0 <= p < i + 1 implies self.world.has_actor_id(#[trigger] sp[p]) by {
                        }
                        // the found entity cannot be one created this drain:
                        // that one's spawn id would repeat in the batch
                        assert(exists|a: int| 0 <= a < w0.len() && w0[a].actor.id == id) by {
                            if k as int >= w0.len() {
                                let p2 = choose|p2: int|
                                    0 <= p2 < i && sp[p2] == self.world.entities@[
                                        k as int
                                    ].actor.id;
                                assert(sp[p2] == sp[i as int]);
                                assert(false);
                            } else {
                                assert(self.world.entities@[k as int] == w0[k as int]);
                            }
                        }
                    }
                }
            }
            i = i + 1;
        }
        let ghost w1 = self.world.entities@;
        let ghost ww = *self;
        let despawns = self.mailbox.drain_despawns();
        let ghost dsp = despawns@;
        let m = despawns.len();
        let mut t: usize = 0;
        while t < m
            invariant
                0 <= t <= m,
                m == dsp.len(),
                despawns@ == dsp,
                spawns@ == sp,
                crate::mailbox::distinct_ids(dsp),
                self.collision == g0.collision,
                self.lag == g0.lag,
                self.tick_gen == g0.tick_gen,
                self.tick_duration == g0.tick_duration,
                self.current_tick == g0.current_tick,
                self.world.wf(),
                self.world.keys == ww.world.keys,
                self.world.entities@.len() == w1.len(),
                self.mailbox.wf(),
                self.mailbox.pending_spawns@ == Seq::<Id>::empty(),
                self.mailbox.pending_inputs == g0.mailbox.pending_inputs,
                self.mailbox.pending_despawns@ == deferred_ids(dsp.take(t as int), sp),
                forall|j: int|
                    w0.len() <= j < w1.len() ==> {
                        let e = #[trigger] w1[j];
                        &&& e.to_spawn
                        &&& !e.to_despawn
                        &&& !e.doomed
                        &&& e.actor.kind == ActorKind::Player
                        &&& e.player is Some
                        &&& sp.contains(e.actor.id)
                        &&& !(exists|a: int| 0 <= a < w0.len() && w0[a].actor.id == e.actor.id)
                    },
                forall|j: int| 0 <= j < w0.len() ==> #[trigger] w1[j] == w0[j],
                forall|j: int|
                    0 <= j < w1.len() ==> #[trigger] self.world.entities@[j] == (if dsp.take(
                        t as int,
                    ).contains(w1[j].actor.id) && !sp.contains(w1[j].actor.id) {
                        despawn_marked(w1[j])
                    } else {
                        w1[j]
                    }),
            decreases m - t,
        {
            proof {
                assert(dsp.take(t + 1).drop_last() =~= dsp.take(t as int));
                assert(dsp.take(t + 1).last() == dsp[t as int]);
            }
            let id = despawns[t];
            let ghost wpre = self.world.entities@;
            if contains_spawn(&spawns, id) {
                self.mailbox.record_disconnect(id);
                proof {
                    assert(!deferred_ids(dsp.take(t as int), sp).contains(id)) by {
                        lemma_deferred_ids_contains(dsp.take(t as int), sp);
                        if dsp.take(t as int).contains(id) {
                            let w = choose|w: int|
                                0 <= w < t as int && (#[trigger] dsp.take(t as int)[w]) == id;
                            assert(dsp[w] == id && dsp[t as int] == id);
                            assert(false);
                        }
                    }
                    assert(self.mailbox.pending_despawns@ == deferred_ids(dsp.take(t + 1), sp));
                    assert forall|j: int|
                        0 <= j < w1.len() implies #[trigger] self.world.entities@[j] == (
                    if dsp.take(t + 1).contains(w1[j].actor.id) && !sp.contains(
                        w1[j].actor.id,
                    ) {
                        despawn_marked(w1[j])
                    } else {
                        w1[j]
                    }) by {
                        if dsp.take(t + 1).contains(w1[j].actor.id) && !dsp.take(
                            t as int,
                        ).contains(w1[j].actor.id) {
                            assert(w1[j].actor.id == id);
                        }
                        if dsp.take(t as int).contains(w1[j].actor.id) {
                            let w = choose|w: int|
                                0 <= w < t as int && (#[trigger] dsp.take(t as int)[w])
                                    == w1[j].actor.id;
                            assert(dsp.take(t + 1)[w] == w1[j].actor.id);
                        }
                    }
                }
            } else {
                let _ = self.world.mark_despawn(id);
                proof {
                    assert(self.mailbox.pending_despawns@ == deferred_ids(dsp.take(t + 1), sp));
                    assert forall|j: int|
                        0 <= j < w1.len() implies #[trigger] self.world.entities@[j] == (
                    if dsp.take(t + 1).contains(w1[j].actor.id) && !sp.contains(
                        w1[j].actor.id,
                    ) {
                        despawn_marked(w1[j])
                    } else {
                        w1[j]
                    }) by {
                        if w1[j].actor.id == id {
                            assert(wpre[j].actor.id == id);
                            assert(dsp.take(t + 1)[t as int] == id);
                            assert(dsp.take(t + 1).contains(id));
                            if dsp.take(t as int).contains(id) {
                                let w = choose|w: int|
                                    0 <= w < t as int && (#[trigger] dsp.take(t as int)[w]) == id;
                                assert(dsp[w] == id && dsp[t as int] == id);
                                assert(false);
                            }
                            assert(self.world.entities@[j] == despawn_marked(wpre[j]));
                            assert(wpre[j] == w1[j]);
                        } else {
                            assert(self.world.entities@[j] == wpre[j]);
                            if dsp.take(t + 1).contains(w1[j].actor.id) && !dsp.take(
                                t as int,
                            ).contains(w1[j].actor.id) {
                                let w = choose|w: int|
                                    0 <= w < t + 1 && (#[trigger] dsp.take(t + 1)[w])
                                        == w1[j].actor.id;
                                assert(w == t as int);
                                assert(false);
                            }
                            if dsp.take(t as int).contains(w1[j].actor.id) {
                                let w = choose|w: int|
                                    0 <= w < t as int && (#[trigger] dsp.take(t as int)[w])
                                        == w1[j].actor.id;
                                assert(dsp.take(t + 1)[w] == w1[j].actor.id);
                            }
                        }
                    }
                }
            }
            t = t + 1;
        }
        proof {
            assert(dsp.take(m as int) =~= dsp);
            assert(sp.take(n as int) =~= sp);
            assert forall|j: int|
                w0.len() <= j < w1.len() implies sp.contains(
                (#[trigger] w1[j]).actor.id,
            ) by {
                let p2 = choose|p2: int| 0 <= p2 < n && sp[p2] == w1[j].actor.id;
                assert(sp[p2] == w1[j].actor.id);
            }
            assert forall|id: Id| sp.contains(id) implies self.world.has_actor_id(id) by {
                let p = choose|p: int| 0 <= p < sp.len() && (#[trigger] sp[p]) == id;
                let a = choose|a: int|
                    0 <= a < w1.len() && w1[a].actor.id == id;
                assert(self.world.entities@[a].actor.id == id);
            }
        }
        spawned
    }

    /// One frame of the game loop: add the elapsed wall-clock time to the
    /// lag accumulator, publish a fresh tick, drain the mailbox, run the
    /// simulation phase once per whole tick duration of accumulated lag —
    /// slow frames catch up with several steps, never skipped ones — then
    /// run the network phase exactly once.  The caller performs the
    /// prepared sends and sleeps for `sleep_ms`.
    #[verifier::rlimit(100)]
    #[verifier::spinoff_prover]
    pub fn frame(&mut self, elapsed: u64) -> (r: FrameResult)
        requires
            old(self).wf(),
            elapsed <= u64::MAX - old(self).lag,
            old(self).tick_gen.next < u64::MAX,
            old(self).world.keys.next + old(self).mailbox.pending_spawns@.len() <= u64::MAX,
        ensures
            final(self).wf(),
            final(self).tick_duration == old(self).tick_duration,
            // fixed-timestep catch-up: exact step count and residual lag
            r.steps == (old(self).lag + elapsed) / (old(self).tick_duration as int),
            final(self).lag == (old(self).lag + elapsed) % (old(self).tick_duration as int),
            r.sleep_ms == old(self).tick_duration - final(self).lag,
            // tick identifiers, strictly increasing
            r.tick == old(self).tick_gen.next,
            final(self).tick_gen.next == old(self).tick_gen.next + 1,
            final(self).current_tick == r.tick,
            // the mailbox was drained exactly once
            final(self).mailbox.pending_spawns@ == Seq::<Id>::empty(),
            forall|id: Id|
                #[trigger] final(self).mailbox.pending_despawns@.contains(id)
                    <==> (old(self).mailbox.pending_spawns@.contains(id)
                    && old(self).mailbox.pending_despawns@.contains(id)),
            r.steps >= 1 ==> final(self).mailbox.pending_inputs@ == Seq::<(
                Id,
                Vec<ClientMsg>,
            )>::empty(),
            r.steps == 0 ==> final(self).mailbox.pending_inputs
                == old(self).mailbox.pending_inputs,
            // lifecycle: one connect, one entity; one disconnect, one removal
            forall|id: Id|
                old(self).mailbox.pending_spawns@.contains(id)
                    ==> #[trigger] final(self).world.has_actor_id(id),
            forall|id: Id|
                old(self).mailbox.pending_despawns@.contains(id)
                    && !old(self).mailbox.pending_spawns@.contains(id)
                    ==> !(#[trigger] final(self).world.has_actor_id(id)),
            forall|id: Id|
                old(self).world.has_actor_id(id)
                    && !old(self).mailbox.pending_despawns@.contains(id)
                    ==> #[trigger] final(self).world.has_actor_id(id),
            // what was despawned: exactly the marked connections
            forall|id: Id|
                #[trigger] r.despawned@.contains(id) <==> (old(self).world.has_actor_id(id)
                    && old(self).mailbox.pending_despawns@.contains(id)
                    && !old(self).mailbox.pending_spawns@.contains(id)),
            // every prepared message is addressed to a player that is
            // still live after the frame
            forall|k: int|
                0 <= k < r.outbound@.len() ==> final(self).world.has_actor_id(
                    (#[trigger] r.outbound@[k]).recipient,
                ),
            // every registered live player was addressed by this frame
            forall|i: int|
                0 <= i < final(self).world.entities@.len()
                    && (#[trigger] final(self).world.entities@[i]).player is Some
                    && !final(self).world.entities@[i].to_spawn ==> exists|k: int|
                    0 <= k < r.outbound@.len() && (#[trigger] r.outbound@[k]).recipient
                        == final(self).world.entities@[i].actor.id,
    {
        let ghost g0 = *self;
        self.lag = self.lag + elapsed;
        let tick = self.tick_gen.gen();
        self.current_tick = tick;
        let spawned = self.register_connections();
        let ghost wreg = self.world.entities@;
        let inputs = self.mailbox.drain_inputs();
        let ghost mb2 = self.mailbox;
        let ghost tg2 = self.tick_gen;
        let ghost total = self.lag as int;
        let d = self.tick_duration;
        let mut steps: u64 = 0;
        proof {
            assert forall|i: int|
                0 <= i < wreg.len() implies !(#[trigger] wreg[i]).doomed && (wreg[i].to_despawn
                ==> wreg[i].actor.id == g0.world.entities@[i].actor.id) by {
                if i < g0.world.entities@.len() {
                    assert(!g0.world.entities@[i].to_despawn && !g0.world.entities@[i].doomed);
                }
            }
        }
        if self.lag >= d {
            simulation_phase(&mut self.world, &mut self.collision, &inputs);
            self.world.maintain();
            self.lag = self.lag - d;
            steps = 1;
            let empty_inputs: Vec<(Id, Vec<ClientMsg>)> = Vec::new();
            while self.lag >= d
                invariant
                    1 <= steps,
                    d == g0.tick_duration,
                    1 <= d <= 1000,
                    0 <= total <= u64::MAX,
                    empty_inputs@ == Seq::<(Id, Vec<ClientMsg>)>::empty(),
                    steps * d + self.lag == total,
                    self.tick_duration == d,
                    self.tick_gen == tg2,
                    self.current_tick == tick,
                    self.mailbox == mb2,
                    self.world.wf(),
                    self.collision.wf(),
                    self.collision.x_bounds == (Bounds { max: ARENA_WIDTH, min: 0i64 }),
                    self.collision.y_bounds == (Bounds { max: ARENA_HEIGHT, min: 0i64 }),
                    self.world.entities@.len() == wreg.len(),
                    forall|i: int|
                        0 <= i < wreg.len() ==> {
                            let e = #[trigger] self.world.entities@[i];
                            &&& e.actor == wreg[i].actor
                            &&& e.to_despawn == wreg[i].to_despawn
                            &&& !e.doomed
                            &&& !e.to_spawn
                        },
                decreases self.lag,
            {
                simulation_phase(&mut self.world, &mut self.collision, &empty_inputs);
                self.world.maintain();
                proof {
                    assert((steps + 1) * d == steps * d + d) by (nonlinear_arith);
                    assert(steps + 1 <= (steps + 1) * d) by (nonlinear_arith)
                        requires
                            d >= 1,
                            steps >= 0,
                    ;
                }
                self.lag = self.lag - d;
                steps = steps + 1;
            }
        } else {
            self.mailbox.pending_inputs = inputs;
        }
        proof {
            if steps == 0 {
                vstd::arithmetic::div_mod::lemma_fundamental_div_mod_converse_div(
                    total,
                    d as int,
                    0,
                    total,
                );
                vstd::arithmetic::div_mod::lemma_fundamental_div_mod_converse_mod(
                    total,
                    d as int,
                    0,
                    total,
                );
            } else {
                vstd::arithmetic::div_mod::lemma_fundamental_div_mod_converse_div(
                    total,
                    d as int,
                    steps as int,
                    self.lag as int,
                );
                vstd::arithmetic::div_mod::lemma_fundamental_div_mod_converse_mod(
                    total,
                    d as int,
                    steps as int,
                    self.lag as int,
                );
            }
        }
        let outbound = sending(&self.world, &self.collision);
        let ghost ob = outbound@;
        let ghost wpre = self.world.entities@;
        let despawned = despawn(&mut self.world, &mut self.collision);
        proof {
            let sp = g0.mailbox.pending_spawns@;
            let dsp = g0.mailbox.pending_despawns@;
            lemma_deferred_ids_contains(dsp, sp);
            crate::system::lemma_marked_ids_contains(wpre);
            crate::system::lemma_recipient_ids_contains(wpre);
            // the prepared messages and the surviving players line up
            assert forall|k: int|
                0 <= k < ob.len() implies self.world.has_actor_id(
                (#[trigger] ob[k]).recipient,
            ) by {
                let id = ob[k].recipient;
                assert(recipient_ids(wpre)[k] == id);
                assert(recipient_ids(wpre).contains(id));
                let j = choose|j: int|
                    0 <= j < wpre.len() && crate::system::is_recipient(#[trigger] wpre[j])
                        && wpre[j].actor.id == id;
                assert(self.world.entities@.contains(wpre[j]));
                let b = choose|b: int|
                    0 <= b < self.world.entities@.len() && self.world.entities@[b] == wpre[j];
                assert(self.world.entities@[b].actor.id == id);
            }
            assert forall|i: int|
                0 <= i < self.world.entities@.len()
                    && (#[trigger] self.world.entities@[i]).player is Some
                    && !self.world.entities@[i].to_spawn implies exists|k: int|
                0 <= k < ob.len() && (#[trigger] ob[k]).recipient
                    == self.world.entities@[i].actor.id by {
                assert(wpre.contains(self.world.entities@[i]));
                let a = choose|a: int|
                    0 <= a < wpre.len() && wpre[a] == self.world.entities@[i];
                assert(crate::system::is_recipient(wpre[a]));
                assert(recipient_ids(wpre).contains(wpre[a].actor.id));
                let w = choose|w: int|
                    0 <= w < recipient_ids(wpre).len() && (#[trigger] recipient_ids(wpre)[w])
                        == wpre[a].actor.id;
                assert(ob[w].recipient == self.world.entities@[i].actor.id);
            }
            // positions in the world kept their identity and markers from
            // the drain to the network phase
            assert(wpre.len() == wreg.len());
            // ids pending spawn kept a live, unmarked entity
            assert forall|id: Id|
                sp.contains(id) implies #[trigger] self.world.has_actor_id(id) by {
                let a = choose|a: int| 0 <= a < wreg.len() && wreg[a].actor.id == id;
                assert(!wreg[a].to_despawn) by {
                    if a < g0.world.entities@.len() {
                        assert(wreg[a] == (if dsp.contains(g0.world.entities@[a].actor.id)
                            && !sp.contains(g0.world.entities@[a].actor.id) {
                            despawn_marked(g0.world.entities@[a])
                        } else {
                            g0.world.entities@[a]
                        }));
                    }
                }
                assert(wpre[a].actor.id == id && !wpre[a].to_despawn && !wpre[a].doomed);
                assert(self.world.entities@.contains(wpre[a]));
                let b = choose|b: int|
                    0 <= b < self.world.entities@.len() && self.world.entities@[b] == wpre[a];
                assert(self.world.entities@[b].actor.id == id);
            }
            // ids pending despawn only: no live entity remains
            assert forall|id: Id|
                dsp.contains(id) && !sp.contains(id) implies !(#[trigger] self.world.has_actor_id(
                id,
            )) by {
                if exists|b: int|
                    0 <= b < self.world.entities@.len() && self.world.entities@[b].actor.id
                        == id {
                    let b = choose|b: int|
                        0 <= b < self.world.entities@.len() && self.world.entities@[b].actor.id
                            == id;
                    assert(wpre.contains(self.world.entities@[b]));
                    let a = choose|a: int|
                        0 <= a < wpre.len() && wpre[a] == self.world.entities@[b];
                    assert(wreg[a].actor.id == id && !wpre[a].to_despawn);
                    assert(wpre[a].to_despawn == wreg[a].to_despawn);
                    if a < g0.world.entities@.len() {
                        assert(wreg[a] == despawn_marked(g0.world.entities@[a]));
                        assert(false);
                    } else {
                        assert(sp.contains(wreg[a].actor.id));
                        assert(false);
                    }
                }
            }
            // entities that were not asked to despawn survived
            assert forall|id: Id|
                g0.world.has_actor_id(id) && !dsp.contains(id) implies #[trigger] self.world.has_actor_id(
                id,
            ) by {
                let a = choose|a: int|
                    0 <= a < g0.world.entities@.len() && g0.world.entities@[a].actor.id == id;
                assert(wreg[a] == g0.world.entities@[a]);
                assert(wpre[a].actor.id == id && !wpre[a].to_despawn && !wpre[a].doomed);
                assert(self.world.entities@.contains(wpre[a]));
                let b = choose|b: int|
                    0 <= b < self.world.entities@.len() && self.world.entities@[b] == wpre[a];
                assert(self.world.entities@[b].actor.id == id);
            }
            // the reported despawns are exactly the marked connections
            assert forall|id: Id|
                #[trigger] despawned@.contains(id) <==> (g0.world.has_actor_id(id)
                    && dsp.contains(id) && !sp.contains(id)) by {
                if despawned@.contains(id) {
                    let a = choose|a: int|
                        0 <= a < wpre.len() && wpre[a].actor.id == id && wpre[a].to_despawn;
                    assert(wreg[a].to_despawn && wreg[a].actor.id == id);
                    assert(a < g0.world.entities@.len() || sp.contains(wreg[a].actor.id));
                    if a < g0.world.entities@.len() {
                        assert(wreg[a] == (if dsp.contains(g0.world.entities@[a].actor.id)
                            && !sp.contains(g0.world.entities@[a].actor.id) {
                            despawn_marked(g0.world.entities@[a])
                        } else {
                            g0.world.entities@[a]
                        }));
                        assert(g0.world.entities@[a].actor.id == id);
                    } else {
                        assert(!wreg[a].to_despawn);
                        assert(false);
                    }
                }
                if g0.world.has_actor_id(id) && dsp.contains(id) && !sp.contains(id) {
                    let a = choose|a: int|
                        0 <= a < g0.world.entities@.len() && g0.world.entities@[a].actor.id
                            == id;
                    assert(wreg[a] == despawn_marked(g0.world.entities@[a]));
                    assert(wpre[a].to_despawn && wpre[a].actor.id == id);
                }
            }
        }
        let sleep_ms = d - self.lag;
        let result = FrameResult { tick, steps, outbound, spawned, despawned, sleep_ms };
        proof {
            assert(result.outbound@ == ob);
            assert forall|i: int|
                0 <= i < self.world.entities@.len()
                    && (#[trigger] self.world.entities@[i]).player is Some
                    && !self.world.entities@[i].to_spawn implies exists|k: int|
                0 <= k < result.outbound@.len() && (#[trigger] result.outbound@[k]).recipient
                    == self.world.entities@[i].actor.id by {
                let id = self.world.entities@[i].actor.id;
                let w = choose|w: int|
                    0 <= w < ob.len() && (#[trigger] ob[w]).recipient == id;
                assert(result.outbound@[w].recipient == id);
            }
        }
        result
    }
}

/// Linear scan over a drained spawn batch.
fn contains_spawn(v: &Vec<Id>, id: Id) -> (r: bool)
    ensures
        r <==> v@.contains(id),
{
    let n = v.len();
    let mut i: usize = 0;
    while i < n
        invariant
            0 <= i <= n,
            n == v@.len(),
            forall|j: int| 0 <= j < i ==> v@[j] != id,
        decreases n - i,
    {
        if v[i] == id {
            return true;
        }
        i = i + 1;
    }
    false
}

} // verus!
