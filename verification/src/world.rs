//! The entity world: an arena of entities, each an opaque key with the
//! closed set of components the simulation uses (identity, player state,
//! acceleration, velocity, spawn/despawn markers).  Systems iterate the
//! arena directly; creation and deletion go through the world so that its
//! invariants — unique keys, at most one live entity per connection id,
//! bounded components — hold at every system boundary.

use vstd::prelude::*;

use crate::model::Acceleration;
use crate::model::Actor;
use crate::model::Id;
use crate::model::Player;
use crate::model::Vel;
use crate::model::ACC_LIMIT;
use crate::model::VEL_LIMIT;
use crate::util::SeqIdGen;

verus! {

/// One entity: an arena key plus its attached components.  `to_spawn`
/// marks the first simulation tick after creation (one-time registration),
/// `to_despawn` marks a requested removal, and `doomed` marks a removal
/// whose cleanup ran, to be finished by the next world maintenance.
pub struct Entity {
    pub key: u64,
    pub actor: Actor,
    pub player: Option<Player>,
    pub acc: Acceleration,
    pub vel: Vel,
    pub to_spawn: bool,
    pub to_despawn: bool,
    pub doomed: bool,
}

impl Entity {
    pub open spec fn wf(self) -> bool {
        &&& -ACC_LIMIT <= self.acc.x <= ACC_LIMIT
        &&& -ACC_LIMIT <= self.acc.y <= ACC_LIMIT
        &&& -VEL_LIMIT <= self.vel.x <= VEL_LIMIT
        &&& -VEL_LIMIT <= self.vel.y <= VEL_LIMIT
        &&& match self.player {
            Some(p) => p.wf(),
            None => true,
        }
    }
}

/// The same entity with its despawn marker set.
pub open spec fn despawn_marked(e: Entity) -> Entity {
    Entity { to_despawn: true, ..e }
}

pub struct EntityWorld {
    pub entities: Vec<Entity>,
    /// Source of fresh arena keys; every key handed out exactly once.
    pub keys: SeqIdGen,
}

/// The arena invariant, over the raw entity sequence: well-formed
/// components, keys below the generator's next key and pairwise unique,
/// and at most one live entity per connection id.
pub open spec fn wf_entities(s: Seq<Entity>, next: u64) -> bool {
    &&& forall|i: int| 0 <= i < s.len() ==> (#[trigger] s[i]).wf()
    &&& forall|i: int| 0 <= i < s.len() ==> (#[trigger] s[i]).key < next
    &&& forall|i: int, j: int| 0 <= i < j < s.len() ==> s[i].key != s[j].key
    &&& forall|i: int, j: int| 0 <= i < j < s.len() ==> s[i].actor.id != s[j].actor.id
}

impl EntityWorld {
    pub open spec fn wf(self) -> bool {
        wf_entities(self.entities@, self.keys.next)
    }

    /// A live entity is tied to this connection id.
    pub open spec fn has_actor_id(self, id: Id) -> bool {
        exists|i: int| 0 <= i < self.entities@.len() && self.entities@[i].actor.id == id
    }

    /// An entity for this connection id is marked for despawn.
    pub open spec fn has_marked(self, id: Id) -> bool {
        exists|i: int|
            0 <= i < self.entities@.len() && self.entities@[i].actor.id == id
                && self.entities@[i].to_despawn
    }

    pub fn new() -> (r: EntityWorld)
        ensures
            r.wf(),
            r.entities@ == Seq::<Entity>::empty(),
            r.keys.next == 0,
    {
        EntityWorld { entities: Vec::new(), keys: SeqIdGen::new() }
    }

    /// Creates an entity carrying the given identity and components, with
    /// a fresh arena key, zero acceleration and its spawn marker set, so
    /// that the next simulation phase performs its one-time registration.
    pub fn create(&mut self, actor: Actor, player: Option<Player>, vel: Vel) -> (key: u64)
        requires
            old(self).wf(),
            !old(self).has_actor_id(actor.id),
            old(self).keys.next < u64::MAX,
            match player {
                Some(p) => p.wf(),
                None => true,
            },
            -VEL_LIMIT <= vel.x <= VEL_LIMIT,
            -VEL_LIMIT <= vel.y <= VEL_LIMIT,
        ensures
            final(self).wf(),
            key == old(self).keys.next,
            final(self).keys.next == old(self).keys.next + 1,
            final(self).entities@ == old(self).entities@.push(
                Entity {
                    key,
                    actor,
                    player,
                    acc: Acceleration { x: 0, y: 0 },
                    vel,
                    to_spawn: true,
                    to_despawn: false,
                    doomed: false,
                },
            ),
            final(self).has_actor_id(actor.id),
    {
        let key = self.keys.gen();
        let e = Entity {
            key,
            actor,
            player,
            acc: Acceleration { x: 0, y: 0 },
            vel,
            to_spawn: true,
            to_despawn: false,
            doomed: false,
        };
        self.entities.push(e);
        proof {
            assert(self.entities@[self.entities@.len() - 1].actor.id == actor.id);
        }
        key
    }

    /// Index of the live entity tied to a connection id, if any.
    pub fn find_actor(&self, id: Id) -> (r: Option<usize>)
        ensures
            match r {
                Some(k) => 0 <= k < self.entities@.len() && self.entities@[k as int].actor.id
                    == id,
                None => !self.has_actor_id(id),
            },
    {
        let n = self.entities.len();
        let mut i: usize = 0;
        while i < n
            invariant
                0 <= i <= n,
                n == self.entities@.len(),
                forall|j: int| 0 <= j < i ==> self.entities@[j].actor.id != id,
            decreases n - i,
        {
            if self.entities[i].actor.id == id {
                return Some(i);
            }
            i = i + 1;
        }
        None
    }

    /// Marks the entity of a connection id for despawn.  An id with no
    /// live entity is a defensive no-op, as the error policy asks.
    pub fn mark_despawn(&mut self, id: Id) -> (r: bool)
        requires
            old(self).wf(),
        ensures
            final(self).wf(),
            final(self).keys == old(self).keys,
            final(self).entities@.len() == old(self).entities@.len(),
            forall|i: int|
                0 <= i < old(self).entities@.len() && (#[trigger] old(self).entities@[i]).actor.id
                    != id ==> final(self).entities@[i] == old(self).entities@[i],
            forall|i: int|
                0 <= i < old(self).entities@.len() && (#[trigger] old(self).entities@[i]).actor.id
                    == id ==> final(self).entities@[i] == despawn_marked(old(self).entities@[i]),
            r == old(self).has_actor_id(id),
    {
        match self.find_actor(id) {
            Some(k) => {
                let mut e = self.entities.remove(k);
                e.to_despawn = true;
                self.entities.insert(k, e);
                proof {
                    assert(self.entities@ =~= old(self).entities@.update(
                        k as int,
                        despawn_marked(old(self).entities@[k as int]),
                    ));
                }
                true
            }
            None => false,
        }
    }

    /// Replaces the components of the entity at one arena position.  The
    /// key and the identity stay, so the world invariants are kept.
    pub fn replace_at(&mut self, i: usize, e: Entity)
        requires
            old(self).wf(),
            i < old(self).entities@.len(),
            e.key == old(self).entities@[i as int].key,
            e.actor == old(self).entities@[i as int].actor,
            e.wf(),
        ensures
            final(self).wf(),
            final(self).keys == old(self).keys,
            final(self).entities@ == old(self).entities@.update(i as int, e),
    {
        let _ = self.entities.remove(i);
        self.entities.insert(i, e);
        proof {
            assert(self.entities@ =~= old(self).entities@.update(i as int, e));
        }
    }

    /// World maintenance: physically removes every doomed entity.  The
    /// survivors are exactly the entities that were not doomed, in their
    /// old order; removed ids are no longer visible to any system.
    pub fn maintain(&mut self)
        requires
            old(self).wf(),
        ensures
            final(self).wf(),
            final(self).keys == old(self).keys,
            forall|i: int|
                0 <= i < final(self).entities@.len()
                    ==> !(#[trigger] final(self).entities@[i]).doomed,
            forall|i: int|
                0 <= i < final(self).entities@.len() ==> old(self).entities@.contains(
                    #[trigger] final(self).entities@[i],
                ),
            forall|i: int|
                0 <= i < old(self).entities@.len()
                    && !(#[trigger] old(self).entities@[i]).doomed
                    ==> final(self).entities@.contains(old(self).entities@[i]),
            (forall|i: int|
                0 <= i < old(self).entities@.len() ==> !(#[trigger] old(
                    self,
                ).entities@[i]).doomed) ==> final(self).entities@ == old(self).entities@,
    {
        let ghost s0 = self.entities@;
        let ghost keys0 = self.keys;
        let mut kept: Vec<Entity> = Vec::new();
        let ghost mut j: int = 0;
        while self.entities.len() > 0
            invariant
                wf_entities(s0, keys0.next),
                0 <= j <= s0.len(),
                self.entities@ =~= s0.skip(j),
                self.keys == keys0,
                forall|a: int|
                    0 <= a < kept@.len() ==> exists|p: int|
                        0 <= p < j && #[trigger] kept@[a] == s0[p],
                forall|a: int| 0 <= a < kept@.len() ==> !(#[trigger] kept@[a]).doomed,
                forall|p: int|
                    0 <= p < j && !(#[trigger] s0[p]).doomed ==> kept@.contains(s0[p]),
                forall|a: int, b: int|
                    0 <= a < b < kept@.len() ==> kept@[a].key != kept@[b].key,
                forall|a: int, b: int|
                    0 <= a < b < kept@.len() ==> kept@[a].actor.id != kept@[b].actor.id,
                forall|a: int|
                    0 <= a < kept@.len() ==> (#[trigger] kept@[a]).wf() && kept@[a].key
                        < keys0.next,
                (forall|p: int| 0 <= p < j ==> !(#[trigger] s0[p]).doomed) ==> kept@
                    =~= s0.take(j),
            decreases s0.len() - j,
        {
            let e = self.entities.remove(0);
            proof {
                assert(e == s0[j]);
                assert(self.entities@ =~= s0.skip(j + 1));
            }
            if !e.doomed {
                let ghost kept_before = kept@;
                kept.push(e);
                proof {
                    assert forall|a: int, b: int|
                        0 <= a < b < kept@.len() implies kept@[a].key != kept@[b].key
                        && kept@[a].actor.id != kept@[b].actor.id by {
                        if b == kept@.len() - 1 {
                            let p = choose|p: int| 0 <= p < j && kept@[a] == s0[p];
                            assert(s0[p].key != s0[j].key);
                            assert(s0[p].actor.id != s0[j].actor.id);
                        }
                    }
                    assert forall|p: int|
                        0 <= p < j + 1 && !(#[trigger] s0[p]).doomed implies kept@.contains(
                        s0[p],
                    ) by {
                        if p < j {
                            let a = choose|a: int|
                                0 <= a < kept_before.len() && kept_before[a] == s0[p];
                            assert(kept@[a] == s0[p]);
                        } else {
                            assert(kept@[kept@.len() - 1] == s0[p]);
                        }
                    }
                }
            } else {
                proof {
                    assert forall|p: int|
                        0 <= p < j + 1 && !(#[trigger] s0[p]).doomed implies kept@.contains(
                        s0[p],
                    ) by {
                        assert(p < j || s0[p].doomed);
                    }
                }
            }
            proof {
                j = j + 1;
            }
        }
        proof {
            assert(j == s0.len());
            assert forall|i: int|
                0 <= i < kept@.len() implies s0.contains(#[trigger] kept@[i]) by {
                let p = choose|p: int| 0 <= p < j && kept@[i] == s0[p];
                assert(s0[p] == kept@[i]);
            }
        }
        core::mem::swap(&mut self.entities, &mut kept);
    }
}

} // verus!
