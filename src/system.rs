use vstd::prelude::*;
use crate::component::{self, Component};
use crate::entity::Entity;

verus! {

/// A shape of data that a system reads from an entity, or from the world's
/// resources: nothing, one component, or a tuple of components.
///
/// Fetching is all or nothing: it succeeds only when every member is present.
/// Setting writes every member back, replacing what was there.
pub trait SystemData<V>: Sized {
    /// The data of this shape that a table of stored values holds.
    spec fn fetch_spec(table: Map<usize, V>) -> Option<Self>;

    /// The table after this data is written into it.
    spec fn write_spec(self, table: Map<usize, V>) -> Map<usize, V>;

    /// The members of the shape have distinct kinds and read back what was
    /// written.
    spec fn faithful() -> bool;

    /// Data that was written is fetched back.
    proof fn lemma_fetch_written(self, table: Map<usize, V>)
        requires
            Self::faithful(),
        ensures
            Self::fetch_spec(self.write_spec(table)) == Some(self),
    ;

    /// Copies the data of this shape out of an entity, if it holds every member.
    fn fetch(e: &Entity<V>) -> (r: Option<Self>)
        requires
            e.wf(),
        ensures
            r == Self::fetch_spec(e@),
    ;

    /// Writes the data into an entity.
    fn set(self, e: &mut Entity<V>)
        requires
            old(e).wf(),
        ensures
            final(e).wf(),
            final(e)@ == self.write_spec(old(e)@),
    ;
}

impl<V> SystemData<V> for () {
    open spec fn fetch_spec(table: Map<usize, V>) -> Option<()> {
        Some(())
    }

    open spec fn write_spec(self, table: Map<usize, V>) -> Map<usize, V> {
        table
    }

    open spec fn faithful() -> bool {
        true
    }

    proof fn lemma_fetch_written(self, table: Map<usize, V>) {
    }

    fn fetch(e: &Entity<V>) -> (r: Option<()>) {
        Some(())
    }

    fn set(self, e: &mut Entity<V>) {
    }
}

impl<C: Component> SystemData<C::Erased> for C {
    open spec fn fetch_spec(table: Map<usize, C::Erased>) -> Option<C> {
        component::lookup::<C>(table)
    }

    open spec fn write_spec(self, table: Map<usize, C::Erased>) -> Map<usize, C::Erased> {
        table.insert(C::kind(), self.pack())
    }

    open spec fn faithful() -> bool {
        component::faithful::<C>()
    }

    proof fn lemma_fetch_written(self, table: Map<usize, C::Erased>) {
        assert(C::unpack(self.pack()) == Some(self));
    }

    fn fetch(e: &Entity<C::Erased>) -> (r: Option<C>) {
        match e.get_component::<C>() {
            Some(c) => Some(*c),
            None => None,
        }
    }

    fn set(self, e: &mut Entity<C::Erased>) {
        e.add_component::<C>(self);
    }
}

impl<V, A: Component<Erased = V>, B: Component<Erased = V>> SystemData<V> for (A, B) {
    open spec fn fetch_spec(table: Map<usize, V>) -> Option<(A, B)> {
        match (component::lookup::<A>(table), component::lookup::<B>(table)) {
            (Some(a), Some(b)) => Some((a, b)),
            _ => None,
        }
    }

    open spec fn write_spec(self, table: Map<usize, V>) -> Map<usize, V> {
        table.insert(A::kind(), self.0.pack()).insert(B::kind(), self.1.pack())
    }

    open spec fn faithful() -> bool {
        &&& component::faithful::<A>()
        &&& component::faithful::<B>()
        &&& A::kind() != B::kind()
    }

    proof fn lemma_fetch_written(self, table: Map<usize, V>) {
        assert(A::unpack(self.0.pack()) == Some(self.0));
        assert(B::unpack(self.1.pack()) == Some(self.1));
    }

    fn fetch(e: &Entity<V>) -> (r: Option<(A, B)>) {
        match (e.get_component::<A>(), e.get_component::<B>()) {
            (Some(a), Some(b)) => Some((*a, *b)),
            _ => None,
        }
    }

    fn set(self, e: &mut Entity<V>) {
        e.add_component::<A>(self.0);
        e.add_component::<B>(self.1);
    }
}

impl<
    V,
    A: Component<Erased = V>,
    B: Component<Erased = V>,
    C: Component<Erased = V>,
> SystemData<V> for (A, B, C) {
    open spec fn fetch_spec(table: Map<usize, V>) -> Option<(A, B, C)> {
        match (
            component::lookup::<A>(table),
            component::lookup::<B>(table),
            component::lookup::<C>(table),
        ) {
            (Some(a), Some(b), Some(c)) => Some((a, b, c)),
            _ => None,
        }
    }

    open spec fn write_spec(self, table: Map<usize, V>) -> Map<usize, V> {
        table.insert(A::kind(), self.0.pack()).insert(B::kind(), self.1.pack()).insert(
            C::kind(),
            self.2.pack(),
        )
    }

    open spec fn faithful() -> bool {
        &&& component::faithful::<A>()
        &&& component::faithful::<B>()
        &&& component::faithful::<C>()
        &&& A::kind() != B::kind()
        &&& A::kind() != C::kind()
        &&& B::kind() != C::kind()
    }

    proof fn lemma_fetch_written(self, table: Map<usize, V>) {
        assert(A::unpack(self.0.pack()) == Some(self.0));
        assert(B::unpack(self.1.pack()) == Some(self.1));
        assert(C::unpack(self.2.pack()) == Some(self.2));
    }

    fn fetch(e: &Entity<V>) -> (r: Option<(A, B, C)>) {
        match (e.get_component::<A>(), e.get_component::<B>(), e.get_component::<C>()) {
            (Some(a), Some(b), Some(c)) => Some((*a, *b, *c)),
            _ => None,
        }
    }

    fn set(self, e: &mut Entity<V>) {
        e.add_component::<A>(self.0);
        e.add_component::<B>(self.1);
        e.add_component::<C>(self.2);
    }
}

/// User logic that runs on every entity holding its `Data` shape, with the
/// world's `Resources` shape at hand.
///
/// `step` states what `run` does, as a function from the system and its inputs
/// to the system and the data afterwards; outside verification it is an
/// ordinary function, which an implementation writes alongside `run`.
pub trait System<V>: Sized {
    /// The components the system reads and writes.
    type Data: SystemData<V>;

    /// The resources the system reads.
    type Resources: SystemData<V>;

    /// The system's state and the data after one run.
    spec fn step(self, data: Self::Data, resources: Self::Resources) -> (Self, Self::Data);

    /// Runs the system on one entity's data.
    fn run(&mut self, data: &mut Self::Data, resources: &Self::Resources)
        ensures
            (*final(self), *final(data)) == old(self).step(*old(data), *resources),
    ;
}

} // verus!
