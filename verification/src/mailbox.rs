//! The connection mailbox: the only state shared between transport-layer
//! threads and the simulation thread.  Transport callbacks record connects,
//! disconnects and input messages; the simulation thread atomically drains
//! each structure once per frame, so every recorded entry is observed by
//! exactly one frame, never duplicated and never lost.  The caller supplies
//! the mutual exclusion (a lock or a single collector fed by channels);
//! this type supplies the record and drain-and-clear semantics.

use vstd::prelude::*;

use crate::model::ClientMsg;
use crate::model::Id;

verus! {

/// No identifier occurs twice in the sequence.
pub open spec fn distinct_ids(s: Seq<Id>) -> bool {
    forall|i: int, j: int| 0 <= i < j < s.len() ==> s[i] != s[j]
}

/// No connection id owns two queues in the sequence.
pub open spec fn distinct_input_keys(s: Seq<(Id, Vec<ClientMsg>)>) -> bool {
    forall|i: int, j: int| 0 <= i < j < s.len() ==> s[i].0 != s[j].0
}

/// The pending-inputs structure as the map it represents: each connection
/// id to its ordered queue of undrained messages.
pub open spec fn inputs_map(s: Seq<(Id, Vec<ClientMsg>)>) -> Map<Id, Seq<ClientMsg>>
    decreases s.len(),
{
    if s.len() == 0 {
        Map::empty()
    } else {
        inputs_map(s.drop_last()).insert(s.last().0, s.last().1@)
    }
}

pub struct Mailbox {
    /// Connection ids promoted into player entities at the next drain.
    pub pending_spawns: Vec<Id>,
    /// Connection ids whose entity is marked for despawn at the next drain.
    pub pending_despawns: Vec<Id>,
    /// Per-connection ordered queues of undrained input messages.
    pub pending_inputs: Vec<(Id, Vec<ClientMsg>)>,
}

impl Mailbox {
    pub open spec fn wf(self) -> bool {
        &&& distinct_ids(self.pending_spawns@)
        &&& distinct_ids(self.pending_despawns@)
        &&& distinct_input_keys(self.pending_inputs@)
    }

    pub open spec fn inputs_view(self) -> Map<Id, Seq<ClientMsg>> {
        inputs_map(self.pending_inputs@)
    }

    /// The queue of one connection; empty when none has been recorded.
    pub open spec fn queue_view(self, id: Id) -> Seq<ClientMsg> {
        if self.inputs_view().contains_key(id) {
            self.inputs_view()[id]
        } else {
            Seq::empty()
        }
    }

    pub fn new() -> (r: Mailbox)
        ensures
            r.wf(),
            r.pending_spawns@ == Seq::<Id>::empty(),
            r.pending_despawns@ == Seq::<Id>::empty(),
            r.pending_inputs@ == Seq::<(Id, Vec<ClientMsg>)>::empty(),
            r.inputs_view() == Map::<Id, Seq<ClientMsg>>::empty(),
    {
        let r = Mailbox {
            pending_spawns: Vec::new(),
            pending_despawns: Vec::new(),
            pending_inputs: Vec::new(),
        };
        proof {
            assert(r.inputs_view() =~= Map::<Id, Seq<ClientMsg>>::empty());
        }
        r
    }

    /// A new connection asks to be promoted into a player entity.  A second
    /// record for an id already pending is absorbed: one connect yields one
    /// pending spawn.
    pub fn record_connect(&mut self, id: Id)
        requires
            old(self).wf(),
        ensures
            final(self).wf(),
            final(self).pending_despawns == old(self).pending_despawns,
            final(self).pending_inputs == old(self).pending_inputs,
            old(self).pending_spawns@.contains(id) ==> final(self).pending_spawns
                == old(self).pending_spawns,
            !old(self).pending_spawns@.contains(id) ==> final(self).pending_spawns@
                == old(self).pending_spawns@.push(id),
    {
        if !contains_id(&self.pending_spawns, id) {
            self.pending_spawns.push(id);
        }
    }

    /// A connection reports (or is reported) gone; its entity is marked for
    /// despawn at the next drain.  Recording twice is the same as once.
    pub fn record_disconnect(&mut self, id: Id)
        requires
            old(self).wf(),
        ensures
            final(self).wf(),
            final(self).pending_spawns == old(self).pending_spawns,
            final(self).pending_inputs == old(self).pending_inputs,
            old(self).pending_despawns@.contains(id) ==> final(self).pending_despawns
                == old(self).pending_despawns,
            !old(self).pending_despawns@.contains(id) ==> final(self).pending_despawns@
                == old(self).pending_despawns@.push(id),
    {
        if !contains_id(&self.pending_despawns, id) {
            self.pending_despawns.push(id);
        }
    }

    /// Appends one decoded input message to its connection's queue, keeping
    /// arrival order within the connection and every other queue unchanged.
    pub fn record_input(&mut self, id: Id, msg: ClientMsg)
        requires
            old(self).wf(),
        ensures
            final(self).wf(),
            final(self).pending_spawns == old(self).pending_spawns,
            final(self).pending_despawns == old(self).pending_despawns,
            final(self).inputs_view() == old(self).inputs_view().insert(
                id,
                old(self).queue_view(id).push(msg),
            ),
    {
        let ghost s0 = self.pending_inputs@;
        match find_input_index(&self.pending_inputs, id) {
            Some(k) => {
                let mut entry = self.pending_inputs.remove(k);
                entry.1.push(msg);
                self.pending_inputs.insert(k, entry);
                proof {
                    assert(self.pending_inputs@ =~= s0.update(
                        k as int,
                        (id, self.pending_inputs@[k as int].1),
                    ));
                    lemma_inputs_map_index(s0, k as int);
                    lemma_inputs_map_contains(s0, id);
                    lemma_inputs_map_update(s0, k as int, self.pending_inputs@[k as int].1);
                }
            }
            None => {
                let mut q: Vec<ClientMsg> = Vec::new();
                q.push(msg);
                self.pending_inputs.push((id, q));
                proof {
                    assert(self.pending_inputs@.drop_last() =~= s0);
                    lemma_inputs_map_contains(s0, id);
                    assert(old(self).queue_view(id) =~= Seq::<ClientMsg>::empty());
                    assert(self.inputs_view() == inputs_map(s0).insert(id, q@));
                    assert(q@ =~= old(self).queue_view(id).push(msg));
                }
            }
        }
    }

    /// Atomically empties the pending-spawn structure and returns what it
    /// held; no id is returned twice.
    pub fn drain_spawns(&mut self) -> (r: Vec<Id>)
        requires
            old(self).wf(),
        ensures
            final(self).wf(),
            r@ == old(self).pending_spawns@,
            distinct_ids(r@),
            final(self).pending_spawns@ == Seq::<Id>::empty(),
            final(self).pending_despawns == old(self).pending_despawns,
            final(self).pending_inputs == old(self).pending_inputs,
    {
        let mut r: Vec<Id> = Vec::new();
        core::mem::swap(&mut r, &mut self.pending_spawns);
        r
    }

    /// Atomically empties the pending-despawn structure and returns what it
    /// held; no id is returned twice.
    pub fn drain_despawns(&mut self) -> (r: Vec<Id>)
        requires
            old(self).wf(),
        ensures
            final(self).wf(),
            r@ == old(self).pending_despawns@,
            distinct_ids(r@),
            final(self).pending_despawns@ == Seq::<Id>::empty(),
            final(self).pending_spawns == old(self).pending_spawns,
            final(self).pending_inputs == old(self).pending_inputs,
    {
        let mut r: Vec<Id> = Vec::new();
        core::mem::swap(&mut r, &mut self.pending_despawns);
        r
    }

    /// Atomically empties the pending-inputs structure and returns every
    /// queue.  A connection id is observed at most once per drain, and a
    /// drained message is gone from the mailbox: a second drain in the same
    /// frame would return nothing.
    pub fn drain_inputs(&mut self) -> (r: Vec<(Id, Vec<ClientMsg>)>)
        requires
            old(self).wf(),
        ensures
            final(self).wf(),
            r == old(self).pending_inputs,
            r@ == old(self).pending_inputs@,
            distinct_input_keys(r@),
            final(self).pending_inputs@ == Seq::<(Id, Vec<ClientMsg>)>::empty(),
            final(self).inputs_view() == Map::<Id, Seq<ClientMsg>>::empty(),
            final(self).pending_spawns == old(self).pending_spawns,
            final(self).pending_despawns == old(self).pending_despawns,
    {
        let mut r: Vec<(Id, Vec<ClientMsg>)> = Vec::new();
        core::mem::swap(&mut r, &mut self.pending_inputs);
        proof {
            assert(self.inputs_view() =~= Map::<Id, Seq<ClientMsg>>::empty());
        }
        r
    }
}

/// Linear scan for an id in a plain id list.
fn contains_id(v: &Vec<Id>, id: Id) -> (r: bool)
    ensures
        r <==> v@.contains(id),
{
    let n = v.len();
    let mut i: usize = 0;
    while i < n
        invariant
            0 <= i <= n,
            n == v@.len(),
            forall|j: int| 0 <= j < i ==> v@[j] != id,
        decreases n - i,
    {
        if v[i] == id {
            return true;
        }
        i = i + 1;
    }
    false
}

/// Linear scan for the queue owned by a connection id.
pub(crate) fn find_input_index(v: &Vec<(Id, Vec<ClientMsg>)>, id: Id) -> (r: Option<usize>)
    ensures
        match r {
            Some(k) => 0 <= k < v@.len() && v@[k as int].0 == id,
            None => forall|j: int| 0 <= j < v@.len() ==> v@[j].0 != id,
        },
{
    let n = v.len();
    let mut i: usize = 0;
    while i < n
        invariant
            0 <= i <= n,
            n == v@.len(),
            forall|j: int| 0 <= j < i ==> v@[j].0 != id,
        decreases n - i,
    {
        if v[i].0 == id {
            return Some(i);
        }
        i = i + 1;
    }
    None
}

/// An id is a key of the represented map exactly when some entry holds it.
pub proof fn lemma_inputs_map_contains(s: Seq<(Id, Vec<ClientMsg>)>, id: Id)
    ensures
        inputs_map(s).contains_key(id) <==> exists|i: int| 0 <= i < s.len() && s[i].0 == id,
    decreases s.len(),
{
    if s.len() > 0 {
        lemma_inputs_map_contains(s.drop_last(), id);
        if s.last().0 == id {
            assert(s[s.len() - 1].0 == id);
        } else if inputs_map(s).contains_key(id) {
            let i = choose|i: int| 0 <= i < s.drop_last().len() && s.drop_last()[i].0 == id;
            assert(s[i].0 == id);
        } else {
            assert forall|i: int| 0 <= i < s.len() implies s[i].0 != id by {
                if i < s.len() - 1 {
                    assert(s.drop_last()[i].0 != id);
                }
            }
        }
    }
}

/// Under distinct keys, the entry at `k` is what the map holds for its id.
pub proof fn lemma_inputs_map_index(s: Seq<(Id, Vec<ClientMsg>)>, k: int)
    requires
        distinct_input_keys(s),
        0 <= k < s.len(),
    ensures
        inputs_map(s).contains_key(s[k].0),
        inputs_map(s)[s[k].0] == s[k].1@,
    decreases s.len(),
{
    if k == s.len() - 1 {
    } else {
        assert(distinct_input_keys(s.drop_last()));
        lemma_inputs_map_index(s.drop_last(), k);
        assert(s[k].0 != s.last().0);
    }
}

/// Under distinct keys, replacing the queue of the entry at `k` updates the
/// represented map at that entry's id and nowhere else.
pub proof fn lemma_inputs_map_update(s: Seq<(Id, Vec<ClientMsg>)>, k: int, q: Vec<ClientMsg>)
    requires
        distinct_input_keys(s),
        0 <= k < s.len(),
    ensures
        inputs_map(s.update(k, (s[k].0, q))) == inputs_map(s).insert(s[k].0, q@),
    decreases s.len(),
{
    let t = s.update(k, (s[k].0, q));
    if k == s.len() - 1 {
        assert(t.drop_last() =~= s.drop_last());
        assert(t.last() == (s[k].0, q));
        assert(inputs_map(t) =~= inputs_map(s).insert(s[k].0, q@));
    } else {
        assert(distinct_input_keys(s.drop_last()));
        lemma_inputs_map_update(s.drop_last(), k, q);
        assert(t.drop_last() =~= s.drop_last().update(k, (s[k].0, q)));
        assert(t.last() == s.last());
        assert(s[k].0 != s.last().0);
        assert(inputs_map(t) =~= inputs_map(s).insert(s[k].0, q@));
    }
}

} // verus!
