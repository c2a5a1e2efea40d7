//! Data model of the simulation: connection ids, input messages, the
//! components attached to entities, and the snapshot records that the
//! sending phase hands to the transport layer.

use vstd::prelude::*;

verus! {

/// Identifies a network connection, and through it a player entity.  The
/// ball is self-assigned an identifier from the same space.
pub type Id = u64;

/// Most recent acceleration magnitude a key press can request.
pub const ACC_LIMIT: i64 = 5;

/// Cap on the per-player key history replay buffer.
pub const KEY_HISTORY_CAP: usize = 10;

/// Largest velocity magnitude physics will integrate to, per axis.
pub const VEL_LIMIT: i64 = 10;

/// The two keys a client can report.
#[derive(Clone, Copy, PartialEq, Eq, Structural, Debug)]
pub enum Key {
    ArrowUp,
    ArrowDown,
}

/// Most recent observed state of one key: whether it is held down and
/// whether its fire modifier was active when the event was produced.
#[derive(Clone, Copy, PartialEq, Eq, Structural, Debug)]
pub struct KeyState {
    pub pressed: bool,
    pub fired: bool,
}

/// A single input event as received over the network, already decoded by
/// the serialization collaborator and associated with one connection.
#[derive(Clone, Copy, PartialEq, Eq, Structural, Debug)]
pub struct ClientMsg {
    pub key: Key,
    pub pressed: bool,
    pub fired: bool,
}

/// An inclusive interval; used for the arena edges.
#[derive(Clone, Copy, PartialEq, Eq, Structural, Debug)]
pub struct Bounds<T> {
    pub max: T,
    pub min: T,
}

/// What the mailbox drain promoted into the world this frame.
#[derive(Clone, Copy, PartialEq, Eq, Structural, Debug)]
pub enum Spawnable {
    Player(Id),
}

/// The two kinds of simulated actors.
#[derive(Clone, Copy, PartialEq, Eq, Structural, Debug)]
pub enum ActorKind {
    Ball,
    Player,
}

/// Identity component: ties a simulation entity to a connection (for
/// players) or to a self-assigned id (for the ball).  Attached at
/// creation, never mutated, removed only with the entity.
#[derive(Clone, Copy, PartialEq, Eq, Structural, Debug)]
pub struct Actor {
    pub id: Id,
    pub kind: ActorKind,
}

/// Acceleration component, mutated by the input handler and consumed by
/// physics.
#[derive(Clone, Copy, PartialEq, Eq, Structural, Debug)]
pub struct Acceleration {
    pub x: i64,
    pub y: i64,
}

/// Velocity component, integrated by physics and reflected by bounce.
#[derive(Clone, Copy, PartialEq, Eq, Structural, Debug)]
pub struct Vel {
    pub x: i64,
    pub y: i64,
}

/// One snapshot of the key states a player holds down, as reconstructed
/// from the stream of input events.  There are exactly two keys, so the
/// map from key to state is stored as one optional slot per key; a slot is
/// `None` until an event for that key has been recorded.
#[derive(Clone, Copy, PartialEq, Eq, Debug)]
pub struct KeyStates {
    pub up: Option<KeyState>,
    pub down: Option<KeyState>,
}

impl KeyStates {
    /// The snapshot before any event: no key has a recorded state.
    pub fn empty() -> (r: KeyStates)
        ensures
            r == KeyStates::spec_empty(),
    {
        KeyStates { up: None, down: None }
    }

    pub open spec fn spec_empty() -> KeyStates {
        KeyStates { up: None, down: None }
    }

    pub open spec fn spec_get(self, key: Key) -> Option<KeyState> {
        match key {
            Key::ArrowUp => self.up,
            Key::ArrowDown => self.down,
        }
    }

    pub fn get(&self, key: Key) -> (r: Option<KeyState>)
        ensures
            r == self.spec_get(key),
    {
        match key {
            Key::ArrowUp => self.up,
            Key::ArrowDown => self.down,
        }
    }

    pub open spec fn spec_insert(self, key: Key, state: KeyState) -> KeyStates {
        match key {
            Key::ArrowUp => KeyStates { up: Some(state), ..self },
            Key::ArrowDown => KeyStates { down: Some(state), ..self },
        }
    }

    /// Records the newest state of one key, keeping the other key's slot.
    pub fn insert(&mut self, key: Key, state: KeyState)
        ensures
            *final(self) == old(self).spec_insert(key, state),
    {
        match key {
            Key::ArrowUp => {
                self.up = Some(state);
            }
            Key::ArrowDown => {
                self.down = Some(state);
            }
        }
    }
}

/// One entry of a player's key history.
#[derive(Clone, Copy, PartialEq, Eq, Debug)]
pub struct PlayerInput {
    pub key_states: KeyStates,
}

/// Player component: the key history replay buffer.  The outbound send
/// handle of the connection stays with the transport layer, which routes
/// each prepared snapshot by the connection id in the Actor component.
#[derive(Clone, PartialEq, Eq, Debug)]
pub struct Player {
    pub key_history: Vec<PlayerInput>,
}

impl Player {
    pub open spec fn wf(self) -> bool {
        self.key_history@.len() <= KEY_HISTORY_CAP
    }

    pub fn new() -> (r: Player)
        ensures
            r.key_history@ == Seq::<PlayerInput>::empty(),
            r.wf(),
    {
        Player { key_history: Vec::new() }
    }
}

/// The effect of one input event on an acceleration: a press requests the
/// full magnitude in its direction, a release cancels the acceleration
/// only while it still points in the released direction.
pub open spec fn apply_key_state(a: Acceleration, m: ClientMsg) -> Acceleration {
    match m.key {
        Key::ArrowUp => {
            if m.pressed {
                Acceleration { x: a.x, y: (-ACC_LIMIT) as i64 }
            } else if a.y < 0 {
                Acceleration { x: a.x, y: 0 }
            } else {
                a
            }
        }
        Key::ArrowDown => {
            if m.pressed {
                Acceleration { x: a.x, y: ACC_LIMIT }
            } else if a.y > 0 {
                Acceleration { x: a.x, y: 0 }
            } else {
                a
            }
        }
    }
}

/// The acceleration after a whole batch of events, applied in order.
pub open spec fn apply_all(a: Acceleration, msgs: Seq<ClientMsg>) -> Acceleration
    decreases msgs.len(),
{
    if msgs.len() == 0 {
        a
    } else {
        apply_key_state(apply_all(a, msgs.drop_last()), msgs.last())
    }
}

/// The history entry an event appends: the previous snapshot with the
/// event's key updated, or — before any snapshot exists — an empty
/// snapshot that records no key at all.
pub open spec fn next_snapshot(h: Seq<PlayerInput>, m: ClientMsg) -> PlayerInput {
    if h.len() == 0 {
        PlayerInput { key_states: KeyStates::spec_empty() }
    } else {
        PlayerInput {
            key_states: h.last().key_states.spec_insert(
                m.key,
                KeyState { pressed: m.pressed, fired: m.fired },
            ),
        }
    }
}

/// The key history after a whole batch of events, before trimming.
pub open spec fn history_after(h: Seq<PlayerInput>, msgs: Seq<ClientMsg>) -> Seq<PlayerInput>
    decreases msgs.len(),
{
    if msgs.len() == 0 {
        h
    } else {
        let prior = history_after(h, msgs.drop_last());
        prior.push(next_snapshot(prior, msgs.last()))
    }
}

/// The most recent `KEY_HISTORY_CAP` entries of a history; older entries
/// are the ones discarded.
pub open spec fn trim_history(h: Seq<PlayerInput>) -> Seq<PlayerInput> {
    if h.len() > KEY_HISTORY_CAP {
        h.skip(h.len() - KEY_HISTORY_CAP)
    } else {
        h
    }
}

/// One actor as it appears in the world snapshot pushed to clients.
#[derive(Clone, Copy, PartialEq, Eq, Structural, Debug)]
pub struct ActorSnapshot {
    pub id: Id,
    pub kind: ActorKind,
    pub x: i64,
    pub y: i64,
}

/// One outbound message: the full snapshot, addressed to one player's
/// connection.  The transport looks the send handle up by the recipient.
#[derive(Clone, PartialEq, Eq, Debug)]
pub struct OutMsg {
    pub recipient: Id,
    pub actors: Vec<ActorSnapshot>,
}

} // verus!
