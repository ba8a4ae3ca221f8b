//! The entity registry: generation-checked identifiers mapped to component
//! tables, with deferred structural changes.
//!
//! An `Entity` is an index plus a generation counter; a despawned slot bumps
//! its generation, so a stale identifier fails explicitly instead of
//! silently aliasing a reused slot. Spawns requested mid-phase are buffered
//! in `pending` and applied only at the explicit `commit` point between
//! scheduler phases.

use crate::components::{Player, Position, Renderable, Viewshed};
use vstd::prelude::*;

verus! {

/// An opaque entity identifier with its generation counter.
#[derive(Clone, Copy, PartialEq, Eq, Debug, Structural)]
pub struct Entity {
    pub id: usize,
    pub generation: u64,
}

/// Explicit failure for identifiers whose generation no longer matches.
#[derive(Clone, Copy, PartialEq, Eq, Debug, Structural)]
pub enum StoreError {
    StaleEntity,
}

/// The components a new entity starts with.
#[derive(Clone, Debug)]
pub struct SpawnRequest {
    pub position: Option<Position>,
    pub renderable: Option<Renderable>,
    pub player: Option<Player>,
    pub viewshed: Option<Viewshed>,
}

/// The commit phase's whole effect: every buffered spawn applied in request
/// order at the end of the tables, every existing slot untouched, and the
/// buffer emptied.
pub open spec fn commit_applied(b: EntityStore, a: EntityStore) -> bool {
    &&& a.pending@.len() == 0
    &&& a.spec_len() == b.spec_len() + b.pending@.len()
    &&& a.generations@.subrange(0, b.spec_len()) == b.generations@
    &&& a.alive@.subrange(0, b.spec_len()) == b.alive@
    &&& a.positions@.subrange(0, b.spec_len()) == b.positions@
    &&& a.renderables@.subrange(0, b.spec_len()) == b.renderables@
    &&& a.players@.subrange(0, b.spec_len()) == b.players@
    &&& a.viewsheds@.subrange(0, b.spec_len()) == b.viewsheds@
    &&& forall|i: int|
        0 <= i < b.pending@.len() ==> {
            let slot = b.spec_len() + i;
            &&& a.alive@[slot]
            &&& a.generations@[slot] == 0
            &&& a.positions@[slot] == (#[trigger] b.pending@[i]).position
            &&& a.renderables@[slot] == b.pending@[i].renderable
            &&& a.players@[slot] == b.pending@[i].player
            &&& a.viewsheds@[slot] == b.pending@[i].viewshed
        }
}

/// Registry of entities and their per-kind component tables.
pub struct EntityStore {
    pub generations: Vec<u64>,
    pub alive: Vec<bool>,
    pub positions: Vec<Option<Position>>,
    pub renderables: Vec<Option<Renderable>>,
    pub players: Vec<Option<Player>>,
    pub viewsheds: Vec<Option<Viewshed>>,
    pub pending: Vec<SpawnRequest>,
}

impl EntityStore {
    /// All component tables cover exactly the allocated slots.
    pub open spec fn wf(&self) -> bool {
        &&& self.alive@.len() == self.generations@.len()
        &&& self.positions@.len() == self.generations@.len()
        &&& self.renderables@.len() == self.generations@.len()
        &&& self.players@.len() == self.generations@.len()
        &&& self.viewsheds@.len() == self.generations@.len()
    }

    pub open spec fn spec_len(&self) -> int {
        self.generations@.len() as int
    }

    /// The identifier refers to a live slot whose generation still matches.
    pub open spec fn spec_valid(&self, e: Entity) -> bool {
        &&& e.id < self.spec_len()
        &&& self.alive@[e.id as int]
        &&& self.generations@[e.id as int] == e.generation
    }

    pub fn new() -> (s: EntityStore)
        ensures
            s.wf(),
            s.spec_len() == 0,
            s.pending@.len() == 0,
    {
        EntityStore {
            generations: Vec::new(),
            alive: Vec::new(),
            positions: Vec::new(),
            renderables: Vec::new(),
            players: Vec::new(),
            viewsheds: Vec::new(),
            pending: Vec::new(),
        }
    }

    pub fn len(&self) -> (r: usize)
        requires
            self.wf(),
        ensures
            r == self.spec_len(),
    {
        self.generations.len()
    }

    /// Create an entity immediately (bootstrap phase). Mid-phase creation
    /// goes through `queue_spawn` and `commit` instead.
    pub fn spawn(&mut self, req: SpawnRequest) -> (e: Entity)
        requires
            old(self).wf(),
        ensures
            final(self).wf(),
            e.id == old(self).spec_len(),
            e.generation == 0,
            final(self).spec_valid(e),
            final(self).spec_len() == old(self).spec_len() + 1,
            final(self).generations@ == old(self).generations@.push(0u64),
            final(self).alive@ == old(self).alive@.push(true),
            final(self).positions@ == old(self).positions@.push(req.position),
            final(self).renderables@ == old(self).renderables@.push(req.renderable),
            final(self).players@ == old(self).players@.push(req.player),
            final(self).viewsheds@ == old(self).viewsheds@.push(req.viewshed),
            final(self).pending@ == old(self).pending@,
    {
        let id = self.generations.len();
        self.generations.push(0);
        self.alive.push(true);
        self.positions.push(req.position);
        self.renderables.push(req.renderable);
        self.players.push(req.player);
        self.viewsheds.push(req.viewshed);
        Entity { id, generation: 0 }
    }

    /// Buffer a structural change; it becomes visible only at `commit`.
    pub fn queue_spawn(&mut self, req: SpawnRequest)
        requires
            old(self).wf(),
        ensures
            final(self).wf(),
            final(self).pending@ == old(self).pending@.push(req),
            final(self).generations@ == old(self).generations@,
            final(self).alive@ == old(self).alive@,
            final(self).positions@ == old(self).positions@,
            final(self).renderables@ == old(self).renderables@,
            final(self).players@ == old(self).players@,
            final(self).viewsheds@ == old(self).viewsheds@,
    {
        self.pending.push(req);
    }

    /// Apply every buffered spawn, in request order, and empty the buffer.
    /// Existing slots are untouched; iterations that finished before this
    /// point never saw the new entities.
    pub fn commit(&mut self)
        requires
            old(self).wf(),
        ensures
            final(self).wf(),
            commit_applied(*old(self), *final(self)),
    {
        let ghost len0 = self.spec_len();
        let ghost pend0 = self.pending@;
        let total: usize = self.pending.len();
        let mut k: usize = 0;
        while self.pending.len() > 0
            invariant
                self.wf(),
                0 <= len0,
                total == pend0.len(),
                k + self.pending@.len() == pend0.len(),
                self.pending@ == pend0.subrange(k as int, pend0.len() as int),
                self.spec_len() == len0 + k,
                self.generations@.subrange(0, len0) == old(self).generations@,
                self.alive@.subrange(0, len0) == old(self).alive@,
                self.positions@.subrange(0, len0) == old(self).positions@,
                self.renderables@.subrange(0, len0) == old(self).renderables@,
                self.players@.subrange(0, len0) == old(self).players@,
                self.viewsheds@.subrange(0, len0) == old(self).viewsheds@,
                forall|i: int|
                    0 <= i < k ==> {
                        let slot = len0 + i;
                        &&& self.alive@[slot]
                        &&& self.generations@[slot] == 0
                        &&& self.positions@[slot] == (#[trigger] pend0[i]).position
                        &&& self.renderables@[slot] == pend0[i].renderable
                        &&& self.players@[slot] == pend0[i].player
                        &&& self.viewsheds@[slot] == pend0[i].viewshed
                    },
            decreases self.pending@.len(),
        {
            let ghost gens_before = self.generations@;
            let ghost alive_before = self.alive@;
            let ghost pos_before = self.positions@;
            let ghost ren_before = self.renderables@;
            let ghost play_before = self.players@;
            let ghost view_before = self.viewsheds@;
            let req = self.pending.remove(0);
            proof {
                assert(req == pend0[k as int]);
                assert(self.pending@ =~= pend0.subrange(k as int + 1, pend0.len() as int));
            }
            self.spawn(req);
            proof {
                assert(gens_before.len() == len0 + k);
                assert(self.generations@.subrange(0, len0) =~= gens_before.subrange(0, len0));
                assert(self.alive@.subrange(0, len0) =~= alive_before.subrange(0, len0));
                assert(self.positions@.subrange(0, len0) =~= pos_before.subrange(0, len0));
                assert(self.renderables@.subrange(0, len0) =~= ren_before.subrange(0, len0));
                assert(self.players@.subrange(0, len0) =~= play_before.subrange(0, len0));
                assert(self.viewsheds@.subrange(0, len0) =~= view_before.subrange(0, len0));
            }
            k = k + 1;
        }
        proof {
            assert(self.pending@ =~= Seq::<SpawnRequest>::empty());
            assert(pend0.subrange(0, pend0.len() as int) =~= pend0);
        }
    }

    pub fn is_valid(&self, e: Entity) -> (r: bool)
        requires
            self.wf(),
        ensures
            r == self.spec_valid(e),
    {
        e.id < self.generations.len() && self.alive[e.id] && self.generations[e.id] == e.generation
    }

    /// The entity's position, or an explicit failure on a stale identifier.
    pub fn position_of(&self, e: Entity) -> (r: Result<Option<Position>, StoreError>)
        requires
            self.wf(),
        ensures
            self.spec_valid(e) ==> r == Ok::<Option<Position>, StoreError>(
                self.positions@[e.id as int],
            ),
            !self.spec_valid(e) ==> r == Err::<Option<Position>, StoreError>(
                StoreError::StaleEntity,
            ),
    {
        if self.is_valid(e) {
            Ok(self.positions[e.id])
        } else {
            Err(StoreError::StaleEntity)
        }
    }

    /// The entity's visual descriptor, or an explicit failure when stale.
    pub fn renderable_of(&self, e: Entity) -> (r: Result<Option<Renderable>, StoreError>)
        requires
            self.wf(),
        ensures
            self.spec_valid(e) ==> r == Ok::<Option<Renderable>, StoreError>(
                self.renderables@[e.id as int],
            ),
            !self.spec_valid(e) ==> r == Err::<Option<Renderable>, StoreError>(
                StoreError::StaleEntity,
            ),
    {
        if self.is_valid(e) {
            Ok(self.renderables[e.id])
        } else {
            Err(StoreError::StaleEntity)
        }
    }

    /// Overwrite the entity's position, or fail explicitly when stale.
    pub fn set_position(&mut self, e: Entity, p: Position) -> (r: Result<(), StoreError>)
        requires
            old(self).wf(),
        ensures
            final(self).wf(),
            old(self).spec_valid(e) ==> r == Ok::<(), StoreError>(()) && final(self).positions@
                == old(self).positions@.update(e.id as int, Some(p)),
            !old(self).spec_valid(e) ==> r == Err::<(), StoreError>(StoreError::StaleEntity)
                && final(self).positions@ == old(self).positions@,
            final(self).generations@ == old(self).generations@,
            final(self).alive@ == old(self).alive@,
            final(self).renderables@ == old(self).renderables@,
            final(self).players@ == old(self).players@,
            final(self).viewsheds@ == old(self).viewsheds@,
            final(self).pending@ == old(self).pending@,
    {
        if self.is_valid(e) {
            self.positions.set(e.id, Some(p));
            Ok(())
        } else {
            Err(StoreError::StaleEntity)
        }
    }

    /// The `(Position, Renderable)` pairs of the first `n` slots that are
    /// live and hold both components, in slot order.
    pub open spec fn spec_drawables(&self, n: int) -> Seq<(Position, Renderable)>
        decreases n,
    {
        if n <= 0 {
            Seq::empty()
        } else {
            let rest = self.spec_drawables(n - 1);
            match (self.alive@[n - 1], self.positions@[n - 1], self.renderables@[n - 1]) {
                (true, Some(p), Some(r)) => rest.push((p, r)),
                _ => rest,
            }
        }
    }

    /// Snapshot of every drawable entity: all live slots holding both a
    /// position and a renderable, in stable slot order. This is the render
    /// query surface handed to the external renderer each tick.
    pub fn drawables(&self) -> (r: Vec<(Position, Renderable)>)
        requires
            self.wf(),
        ensures
            r@ == self.spec_drawables(self.spec_len()),
    {
        let n = self.generations.len();
        let mut out: Vec<(Position, Renderable)> = Vec::new();
        let mut i: usize = 0;
        while i < n
            invariant
                self.wf(),
                n == self.spec_len(),
                i <= n,
                out@ == self.spec_drawables(i as int),
            decreases n - i,
        {
            if self.alive[i] {
                match (&self.positions[i], &self.renderables[i]) {
                    (Some(p), Some(rend)) => {
                        out.push((*p, *rend));
                    },
                    _ => {},
                }
            }
            i = i + 1;
        }
        out
    }

    /// Remove an entity. Its slot's generation is bumped, so the old
    /// identifier (and any copy of it) is stale from here on; a stale
    /// identifier fails explicitly and changes nothing.
    pub fn despawn(&mut self, e: Entity) -> (r: Result<(), StoreError>)
        requires
            old(self).wf(),
        ensures
            final(self).wf(),
            final(self).spec_len() == old(self).spec_len(),
            old(self).spec_valid(e) ==> {
                &&& r == Ok::<(), StoreError>(())
                &&& !final(self).alive@[e.id as int]
                &&& final(self).generations@[e.id as int] != e.generation
                &&& !final(self).spec_valid(e)
                &&& forall|i: int|
                    0 <= i < old(self).spec_len() && i != e.id as int ==> {
                        &&& (#[trigger] final(self).generations@[i]) == old(self).generations@[i]
                        &&& final(self).alive@[i] == old(self).alive@[i]
                    }
            },
            !old(self).spec_valid(e) ==> r == Err::<(), StoreError>(StoreError::StaleEntity)
                && *final(self) == *old(self),
            final(self).positions@ == old(self).positions@,
            final(self).renderables@ == old(self).renderables@,
            final(self).players@ == old(self).players@,
            final(self).viewsheds@ == old(self).viewsheds@,
            final(self).pending@ == old(self).pending@,
    {
        if self.is_valid(e) {
            let g = self.generations[e.id];
            let g2: u64 = if g == u64::MAX {
                0
            } else {
                g + 1
            };
            self.generations.set(e.id, g2);
            self.alive.set(e.id, false);
            Ok(())
        } else {
            Err(StoreError::StaleEntity)
        }
    }
}

} // verus!
