//! The collision world: a bounded 2D spatial index that associates a body
//! with an external identifier.  Physics writes positions into it, bounce
//! reads boundary contact out of it.  Its internal organisation is of no
//! interest to the simulation; what matters is that every body stays
//! inside the fixed bounds and that an identifier owns at most one body.

use vstd::prelude::*;

use crate::model::Bounds;
use crate::model::Id;

verus! {

/// One registered body: an external identifier and its position.
#[derive(Clone, Copy, PartialEq, Eq, Structural, Debug)]
pub struct Body {
    pub id: Id,
    pub x: i64,
    pub y: i64,
}

pub struct CollisionWorld {
    pub x_bounds: Bounds<i64>,
    pub y_bounds: Bounds<i64>,
    pub bodies: Vec<Body>,
}

impl CollisionWorld {
    pub open spec fn in_bounds(self, x: i64, y: i64) -> bool {
        &&& self.x_bounds.min <= x <= self.x_bounds.max
        &&& self.y_bounds.min <= y <= self.y_bounds.max
    }

    pub open spec fn wf(self) -> bool {
        &&& self.x_bounds.min <= self.x_bounds.max
        &&& self.y_bounds.min <= self.y_bounds.max
        &&& forall|i: int, j: int|
            0 <= i < j < self.bodies@.len() ==> self.bodies@[i].id != self.bodies@[j].id
        &&& forall|i: int|
            0 <= i < self.bodies@.len() ==> self.in_bounds(
                (#[trigger] self.bodies@[i]).x,
                self.bodies@[i].y,
            )
    }

    pub open spec fn has_body(self, id: Id) -> bool {
        exists|i: int| 0 <= i < self.bodies@.len() && self.bodies@[i].id == id
    }

    /// Arena index of the body owned by `id`; meaningful under `wf` and
    /// `has_body`, where it is unique.
    pub open spec fn body_index(self, id: Id) -> int {
        choose|i: int| 0 <= i < self.bodies@.len() && self.bodies@[i].id == id
    }

    /// The position of the body owned by `id`.
    pub open spec fn spec_pos(self, id: Id) -> (i64, i64) {
        (self.bodies@[self.body_index(id)].x, self.bodies@[self.body_index(id)].y)
    }

    /// An empty index over the arena `[0, width] x [0, height]`.
    pub fn new(width: i64, height: i64) -> (r: CollisionWorld)
        requires
            width >= 0,
            height >= 0,
        ensures
            r.wf(),
            r.x_bounds == (Bounds { max: width, min: 0i64 }),
            r.y_bounds == (Bounds { max: height, min: 0i64 }),
            r.bodies@ == Seq::<Body>::empty(),
    {
        CollisionWorld {
            x_bounds: Bounds { max: width, min: 0 },
            y_bounds: Bounds { max: height, min: 0 },
            bodies: Vec::new(),
        }
    }

    /// Linear scan for the body owned by an identifier.
    fn find_body(&self, id: Id) -> (r: Option<usize>)
        ensures
            match r {
                Some(k) => 0 <= k < self.bodies@.len() && self.bodies@[k as int].id == id,
                None => !self.has_body(id),
            },
    {
        let n = self.bodies.len();
        let mut i: usize = 0;
        while i < n
            invariant
                0 <= i <= n,
                n == self.bodies@.len(),
                forall|j: int| 0 <= j < i ==> self.bodies@[j].id != id,
            decreases n - i,
        {
            if self.bodies[i].id == id {
                return Some(i);
            }
            i = i + 1;
        }
        None
    }

    /// Registers a body for an identifier that has none yet; registering an
    /// identifier twice is a defensive no-op.
    pub fn register(&mut self, id: Id, x: i64, y: i64) -> (r: bool)
        requires
            old(self).wf(),
            old(self).in_bounds(x, y),
        ensures
            final(self).wf(),
            final(self).x_bounds == old(self).x_bounds,
            final(self).y_bounds == old(self).y_bounds,
            r == !old(self).has_body(id),
            !old(self).has_body(id) ==> final(self).bodies@ == old(self).bodies@.push(
                Body { id, x, y },
            ),
            old(self).has_body(id) ==> final(self).bodies@ == old(self).bodies@,
            final(self).has_body(id),
    {
        match self.find_body(id) {
            Some(_) => false,
            None => {
                self.bodies.push(Body { id, x, y });
                proof {
                    assert(self.bodies@[self.bodies@.len() - 1].id == id);
                }
                true
            }
        }
    }

    /// Moves the body owned by `id`; an unknown identifier is a defensive
    /// no-op.  No other body moves.
    pub fn update_pos(&mut self, id: Id, x: i64, y: i64) -> (r: bool)
        requires
            old(self).wf(),
            old(self).in_bounds(x, y),
        ensures
            final(self).wf(),
            final(self).x_bounds == old(self).x_bounds,
            final(self).y_bounds == old(self).y_bounds,
            final(self).bodies@.len() == old(self).bodies@.len(),
            r == old(self).has_body(id),
            forall|i: int|
                0 <= i < old(self).bodies@.len() && (#[trigger] old(self).bodies@[i]).id != id
                    ==> final(self).bodies@[i] == old(self).bodies@[i],
            forall|i: int|
                0 <= i < old(self).bodies@.len() && (#[trigger] old(self).bodies@[i]).id == id
                    ==> final(self).bodies@[i] == (Body { id, x, y }),
    {
        match self.find_body(id) {
            Some(k) => {
                let _ = self.bodies.remove(k);
                self.bodies.insert(k, Body { id, x, y });
                proof {
                    assert(self.bodies@ =~= old(self).bodies@.update(
                        k as int,
                        Body { id, x, y },
                    ));
                }
                true
            }
            None => false,
        }
    }

    /// The position of the body owned by `id`, if one is registered.
    pub fn get_pos(&self, id: Id) -> (r: Option<(i64, i64)>)
        requires
            self.wf(),
        ensures
            r is Some <==> self.has_body(id),
            r matches Some(p) ==> p == self.spec_pos(id) && self.in_bounds(p.0, p.1),
    {
        match self.find_body(id) {
            Some(k) => {
                let b = self.bodies[k];
                proof {
                    let w = self.body_index(id);
                    assert(self.bodies@[w].id == id);
                    if w != k as int {
                        assert(false);
                    }
                }
                Some((b.x, b.y))
            }
            None => None,
        }
    }

    /// Unregisters the body owned by `id`; an unknown identifier is a
    /// defensive no-op.  Every other body stays, in order.
    pub fn remove_body(&mut self, id: Id) -> (r: bool)
        requires
            old(self).wf(),
        ensures
            final(self).wf(),
            final(self).x_bounds == old(self).x_bounds,
            final(self).y_bounds == old(self).y_bounds,
            r == old(self).has_body(id),
            !final(self).has_body(id),
            old(self).has_body(id) ==> final(self).bodies@ == old(self).bodies@.remove(
                old(self).body_index(id),
            ),
            !old(self).has_body(id) ==> final(self).bodies@ == old(self).bodies@,
    {
        match self.find_body(id) {
            Some(k) => {
                let _ = self.bodies.remove(k);
                proof {
                    let w = old(self).body_index(id);
                    assert(old(self).bodies@[w].id == id);
                    if w != k as int {
                        assert(false);
                    }
                    assert forall|i: int|
                        0 <= i < self.bodies@.len() implies (#[trigger] self.bodies@[i]).id
                        != id by {
                        if i < k as int {
                            assert(self.bodies@[i] == old(self).bodies@[i]);
                        } else {
                            assert(self.bodies@[i] == old(self).bodies@[i + 1]);
                        }
                    }
                }
                true
            }
            None => false,
        }
    }
}

} // verus!
