use vstd::prelude::*;
use crate::component::{self, Component};
use crate::storage::{Eid, GenericStorage, MapStorage};
use crate::system::{System, SystemData};
use crate::world::World;

verus! {

/// A collection of components, at most one of each component type.
///
/// Components sit in a table from kind tags to stored values. A stored value
/// that does not unpack as the type asked for reads as absent.
#[derive(Debug)]
pub struct Entity<V> {
    components: MapStorage<V>,
}

impl<V> View for Entity<V> {
    type V = Map<usize, V>;

    /// The stored components, by kind.
    closed spec fn view(&self) -> Map<usize, V> {
        self.components@
    }
}

impl<V> Entity<V> {
    /// The entity's table is well formed.
    pub closed spec fn wf(&self) -> bool {
        self.components.well_formed()
    }

    /// Adds `component`, replacing the component of its type if the entity
    /// had one; that previous component is returned.
    pub fn add_component<C: Component<Erased = V>>(&mut self, component: C) -> (prev: Option<Box<C>>)
        requires
            old(self).wf(),
        ensures
            final(self).wf(),
            final(self)@ == old(self)@.insert(C::kind(), component.pack()),
            component::lookup::<C>(final(self)@) == Some(component),
            match component::lookup::<C>(old(self)@) {
                Some(c) => prev is Some && *prev.unwrap() == c,
                None => prev is None,
            },
    {
        let value = component.into_erased();
        match self.components.push(C::type_tag(), value) {
            Some(old_value) => match C::from_erased(&old_value) {
                Some(c) => Some(Box::new(*c)),
                None => None,
            },
            None => None,
        }
    }

    /// The component of type `C`, if the entity has one.
    pub fn get_component<C: Component<Erased = V>>(&self) -> (r: Option<&C>)
        requires
            self.wf(),
        ensures
            match component::lookup::<C>(self@) {
                Some(c) => r is Some && *r.unwrap() == c,
                None => r is None,
            },
    {
        match self.components.get(&C::type_tag()) {
            Some(value) => C::from_erased(value),
            None => None,
        }
    }

    /// A mutable reference to the component of type `C`, if the entity has
    /// one; what is written through it stays in the entity.
    pub fn get_mut_component<C: Component<Erased = V>>(&mut self) -> (r: Option<&mut C>)
        requires
            old(self).wf(),
        ensures
            final(self).wf(),
            match component::lookup::<C>(old(self)@) {
                Some(c) => {
                    &&& r is Some
                    &&& *r.unwrap() == c
                    &&& final(self)@ == old(self)@.insert(C::kind(), (*final(r.unwrap())).pack())
                },
                None => r is None && final(self)@ == old(self)@,
            },
    {
        let tag = C::type_tag();
        match self.components.get_mut(&tag) {
            Some(value) => C::from_erased_mut(value),
            None => None,
        }
    }

    /// Removes the component of type `C` and returns it, if the entity has one.
    pub fn remove_component<C: Component<Erased = V>>(&mut self) -> (r: Option<Box<C>>)
        requires
            old(self).wf(),
        ensures
            final(self).wf(),
            final(self)@ == old(self)@.remove(C::kind()),
            match component::lookup::<C>(old(self)@) {
                Some(c) => r is Some && *r.unwrap() == c,
                None => r is None,
            },
    {
        match self.components.remove(&C::type_tag()) {
            Some(value) => match C::from_erased(&value) {
                Some(c) => Some(Box::new(*c)),
                None => None,
            },
            None => None,
        }
    }

    /// Writes a system's data into the entity, replacing every component of
    /// its shape.
    pub fn set<S: System<V>>(&mut self, data: S::Data)
        requires
            old(self).wf(),
        ensures
            final(self).wf(),
            final(self)@ == data.write_spec(old(self)@),
    {
        data.set(self);
    }
}

impl<V> Default for Entity<V> {
    /// An entity without components.
    fn default() -> (e: Self)
        ensures
            e.wf(),
            e@ == Map::<usize, V>::empty(),
    {
        Entity { components: MapStorage::new() }
    }
}

/// Gathers components for a new entity, which `build` hands to a world.
#[derive(Debug)]
pub struct EntityBuilder<V> {
    entity: Entity<V>,
}

impl<V> View for EntityBuilder<V> {
    type V = Map<usize, V>;

    /// The components gathered so far, by kind.
    closed spec fn view(&self) -> Map<usize, V> {
        self.entity@
    }
}

impl<V> EntityBuilder<V> {
    /// The entity under construction is well formed.
    pub closed spec fn wf(&self) -> bool {
        self.entity.wf()
    }

    /// A builder with no components gathered.
    pub(crate) fn new() -> (b: Self)
        ensures
            b.wf(),
            b@ == Map::<usize, V>::empty(),
    {
        EntityBuilder { entity: Entity::default() }
    }

    /// Adds a component to the entity under construction; of two components
    /// of one type, the later one stays.
    pub fn with<C: Component<Erased = V>>(self, component: C) -> (b: Self)
        requires
            self.wf(),
        ensures
            b.wf(),
            b@ == self@.insert(C::kind(), component.pack()),
            component::lookup::<C>(b@) == Some(component),
    {
        let mut b = self;
        b.entity.add_component(component);
        b
    }

    /// Hands the entity to `world`, which gives it the next identity; that
    /// identity is returned.
    pub fn build(self, world: &mut World<V>) -> (id: Eid)
        requires
            self.wf(),
            old(world).wf(),
            old(world).next_id() < usize::MAX,
        ensures
            final(world).wf(),
            old(world).inserts(self@, id, *final(world)),
    {
        world.insert_entity(self.entity)
    }
}

} // verus!
