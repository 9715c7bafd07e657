use vstd::prelude::*;

use crate::topology::TetraIndex;

verus! {

/// One spawn or despawn call: the orientation position and lattice coordinate
/// together with the returned handle for a spawn, and the handle alone for a
/// despawn.
#[derive(Clone, Copy, PartialEq, Eq, Structural, Debug)]
pub enum LifeEvent {
    Spawned(usize, usize, usize, usize, u64),
    Despawned(u64),
}

/// Whether `post` is `pre` with zero or more events appended: nothing a
/// binder has recorded is ever taken back.
pub open spec fn extends(post: Seq<LifeEvent>, pre: Seq<LifeEvent>) -> bool {
    pre.len() <= post.len() && pre == post.subrange(0, pre.len() as int)
}

pub proof fn lemma_extends_refl(e: Seq<LifeEvent>)
    ensures
        extends(e, e),
{
    assert(e.subrange(0, e.len() as int) =~= e);
}

/// The presentation-layer collaborator contract. The engine never touches the
/// presentation layer directly: whenever a cell comes alive it asks the
/// binder for a handle, and whenever a cell dies it hands the stored handle
/// back. Each call appends exactly one event to the binder's trace; the
/// engine makes no assumption about the handles a binder returns.
pub trait LifecycleBinder {
    /// Every spawn and despawn call so far, in order.
    spec fn events(&self) -> Seq<LifeEvent>;

    /// A cell at lattice coordinate (x, y, z) in the given orientation came
    /// alive; place its visual representation and return the handle the
    /// engine will store for it.
    fn spawn(&mut self, n: TetraIndex, x: usize, y: usize, z: usize) -> (h: u64)
        ensures
            final(self).events() == old(self).events().push(
                LifeEvent::Spawned(n.index_spec() as usize, x, y, z, h),
            ),
    ;

    /// The cell bound to this handle died; remove its representation.
    fn despawn(&mut self, h: u64)
        ensures
            final(self).events() == old(self).events().push(LifeEvent::Despawned(h)),
    ;
}

/// A headless binder: hands out handles from a running counter and keeps the
/// event trace as a plain vector, so a caller can replay the calls against a
/// real presentation layer or inspect them.
pub struct CountingBinder {
    pub next_handle: u64,
    pub log: Vec<LifeEvent>,
}

impl CountingBinder {
    pub fn new() -> (b: CountingBinder)
        ensures
            b.next_handle == 1,
            b.log@.len() == 0,
    {
        CountingBinder { next_handle: 1, log: Vec::new() }
    }
}

impl LifecycleBinder for CountingBinder {
    open spec fn events(&self) -> Seq<LifeEvent> {
        self.log@
    }

    fn spawn(&mut self, n: TetraIndex, x: usize, y: usize, z: usize) -> (h: u64) {
        let h = self.next_handle;
        self.next_handle = self.next_handle.wrapping_add(1);
        self.log.push(LifeEvent::Spawned(n.index(), x, y, z, h));
        h
    }

    fn despawn(&mut self, h: u64) {
        self.log.push(LifeEvent::Despawned(h));
    }
}

} // verus!
