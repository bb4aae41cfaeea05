use vstd::prelude::*;
use std::collections::HashSet;
use crate::component::{self, Component, Resource};
use crate::dispatch;
use crate::entity::{Entity, EntityBuilder};
use crate::storage::{Eid, GenericStorage, MapStorage};
use crate::system::{System, SystemData};

verus! {

broadcast use vstd::std_specs::hash::group_hash_axioms;

/// The container of all entities and of the resources.
#[derive(Debug)]
pub struct World<V> {
    component_ids: HashSet<usize>,
    entities: MapStorage<Entity<V>>,
    resources: Entity<V>,
    next_entity_id: Eid,
}

impl<V> World<V> {
    /// The identity that the next entity will get.
    pub closed spec fn next_id(&self) -> Eid {
        self.next_entity_id
    }

    /// The identities of the entities, in the order in which dispatch visits them.
    pub closed spec fn ids(&self) -> Seq<Eid> {
        self.entities.key_seq()
    }

    /// The components of each entity, by identity.
    pub closed spec fn contents(&self) -> Map<Eid, Map<usize, V>> {
        self.entities@.map_values(|e: Entity<V>| e@)
    }

    /// The kinds of the registered component types.
    pub closed spec fn registered(&self) -> Set<usize> {
        self.component_ids@
    }

    /// The resources, by kind.
    pub closed spec fn resource_table(&self) -> Map<usize, V> {
        self.resources@
    }

    /// The component of type `C` of entity `entity`, if there is such an
    /// entity and it holds one.
    pub open spec fn component_of<C: Component<Erased = V>>(&self, entity: Eid) -> Option<C> {
        if self.contents().contains_key(entity) {
            component::lookup::<C>(self.contents()[entity])
        } else {
            None
        }
    }

    /// The world is well formed: every entity is, and every identity in use
    /// lies below the next one.
    pub closed spec fn wf(&self) -> bool {
        &&& self.entities.well_formed()
        &&& self.resources.wf()
        &&& forall|id: Eid| #[trigger]
            self.entities@.contains_key(id) ==> self.entities@[id].wf() && id
                < self.next_entity_id
    }

    /// `after` and `sys_after` are what a dispatch of `sys` on this world
    /// leaves: the entities visited in the order of `ids` as `dispatch_over`
    /// says, with the world's resources at hand; when the world lacks one of
    /// the system's resources, nothing changes. Identities, registrations and
    /// resources stay as they were.
    pub open spec fn dispatched<S: System<V>>(self, sys: S, after: Self, sys_after: S) -> bool {
        &&& after.ids() == self.ids()
        &&& after.next_id() == self.next_id()
        &&& after.registered() == self.registered()
        &&& after.resource_table() == self.resource_table()
        &&& match <S::Resources as SystemData<V>>::fetch_spec(self.resource_table()) {
            Some(res) => (sys_after, after.contents()) == dispatch::dispatch_over(
                sys,
                res,
                self.ids(),
                self.contents(),
            ),
            None => sys_after == sys && after.contents() == self.contents(),
        }
    }

    /// `added` and `after` are what registering the component kind `kind` on
    /// this world returns and leaves: whether the kind was new, and the kind
    /// added to the registrations, with everything else as it was.
    pub open spec fn registers(self, kind: usize, added: bool, after: Self) -> bool {
        &&& added == !self.registered().contains(kind)
        &&& after.registered() == self.registered().insert(kind)
        &&& after.contents() == self.contents()
        &&& after.ids() == self.ids()
        &&& after.next_id() == self.next_id()
        &&& after.resource_table() == self.resource_table()
    }

    /// `id` and `after` are what storing an entity with components `table` in
    /// this world returns and leaves: the entity gets the next identity, which
    /// goes up by one, and comes last in the order of `ids`.
    pub open spec fn inserts(self, table: Map<usize, V>, id: Eid, after: Self) -> bool {
        &&& id == self.next_id()
        &&& after.next_id() == id + 1
        &&& after.contents() == self.contents().insert(id, table)
        &&& after.ids() == self.ids().push(id)
        &&& after.registered() == self.registered()
        &&& after.resource_table() == self.resource_table()
    }

    /// What a well-formed world holds.
    pub proof fn lemma_wf(&self)
        requires
            self.wf(),
        ensures
            self.ids().no_duplicates(),
            self.contents().dom() == self.ids().to_set(),
            forall|id: Eid| #[trigger] self.contents().contains_key(id) ==> id < self.next_id(),
            !self.contents().contains_key(self.next_id()),
            dispatch::covers(self.ids(), self.contents()),
    {
        self.entities.lemma_view();
        assert forall|i: int| 0 <= i < self.ids().len() implies self.contents().contains_key(
            #[trigger] self.ids()[i],
        ) by {
            assert(self.ids().to_set().contains(self.ids()[i]));
        }
    }

    /// Identities are never reused. Storing an entity hands out the next
    /// identity and raises it by one; every other operation, entity removal
    /// included, keeps it. So an identity handed out later is larger than one
    /// handed out before, and names no entity when it is handed out.
    pub proof fn lemma_ids_increase(
        self,
        first: Map<usize, V>,
        id1: Eid,
        mid: Self,
        later: Self,
        second: Map<usize, V>,
        id2: Eid,
        after: Self,
    )
        requires
            self.inserts(first, id1, mid),
            later.next_id() >= mid.next_id(),
            later.wf(),
            later.inserts(second, id2, after),
        ensures
            id1 < id2,
            !later.contents().contains_key(id2),
            after.contents()[id2] == second,
    {
        later.lemma_wf();
    }

    /// Registering a new component type twice: the first registration reports
    /// it as new, the second does not and changes nothing, and neither touches
    /// the entities.
    pub proof fn lemma_register_twice(
        self,
        kind: usize,
        first: bool,
        mid: Self,
        second: bool,
        after: Self,
    )
        requires
            !self.registered().contains(kind),
            self.registers(kind, first, mid),
            mid.registers(kind, second, after),
        ensures
            first,
            !second,
            after.registered() == mid.registered(),
            after.contents() == self.contents(),
            after.ids() == self.ids(),
    {
        assert(mid.registered().insert(kind) =~= mid.registered());
    }

    /// Registrations do not bear on dispatch: two worlds that differ only in
    /// their registered component types come out of a dispatch of one system
    /// with the same entities, and the system in the same state.
    pub proof fn lemma_registration_ignored<S: System<V>>(
        a: Self,
        b: Self,
        sys: S,
        a_after: Self,
        a_sys: S,
        b_after: Self,
        b_sys: S,
    )
        requires
            a.ids() == b.ids(),
            a.contents() == b.contents(),
            a.resource_table() == b.resource_table(),
            a.dispatched(sys, a_after, a_sys),
            b.dispatched(sys, b_after, b_sys),
        ensures
            a_after.contents() == b_after.contents(),
            a_sys == b_sys,
    {
    }

    /// An entity that lacks a member of the system's data shape comes out of
    /// a dispatch as it was; with a shape of two component types, that is an
    /// entity holding only one of them, or neither.
    pub proof fn lemma_dispatch_skips<S: System<V>>(
        self,
        sys: S,
        after: Self,
        sys_after: S,
        id: Eid,
    )
        requires
            self.wf(),
            self.dispatched(sys, after, sys_after),
            self.contents().contains_key(id),
            <S::Data as SystemData<V>>::fetch_spec(self.contents()[id]) is None,
        ensures
            after.contents().contains_key(id),
            after.contents()[id] == self.contents()[id],
    {
        self.lemma_wf();
        match <S::Resources as SystemData<V>>::fetch_spec(self.resource_table()) {
            Some(res) => {
                dispatch::lemma_dispatch_frame(sys, res, self.ids(), self.contents(), id);
                dispatch::lemma_dispatch_skips(sys, res, self.ids(), self.contents(), id);
            },
            None => {},
        }
    }

    /// When no entity holds the system's whole data shape, a dispatch never
    /// runs the system: the system and every entity stay as they were.
    pub proof fn lemma_dispatch_no_match<S: System<V>>(self, sys: S, after: Self, sys_after: S)
        requires
            self.wf(),
            self.dispatched(sys, after, sys_after),
            forall|id: Eid|
                #[trigger] self.contents().contains_key(id) ==> (<S::Data as SystemData<
                    V,
                >>::fetch_spec(self.contents()[id]) is None),
        ensures
            after.contents() == self.contents(),
            sys_after == sys,
    {
        self.lemma_wf();
        match <S::Resources as SystemData<V>>::fetch_spec(self.resource_table()) {
            Some(res) => {
                dispatch::lemma_dispatch_no_match(sys, res, self.ids(), self.contents());
            },
            None => {},
        }
    }

    /// A dispatch of a system whose state never changes gives every entity
    /// that holds the data shape the system's output for that entity's data,
    /// which the entity then holds.
    pub proof fn lemma_dispatch_output<S: System<V>>(
        self,
        sys: S,
        after: Self,
        sys_after: S,
        res: S::Resources,
        id: Eid,
        data: S::Data,
    )
        requires
            self.wf(),
            self.dispatched(sys, after, sys_after),
            <S::Resources as SystemData<V>>::fetch_spec(self.resource_table()) == Some(res),
            dispatch::stateless(sys, res),
            <S::Data as SystemData<V>>::faithful(),
            self.contents().contains_key(id),
            <S::Data as SystemData<V>>::fetch_spec(self.contents()[id]) == Some(data),
        ensures
            sys_after == sys,
            after.contents()[id] == sys.step(data, res).1.write_spec(self.contents()[id]),
            <S::Data as SystemData<V>>::fetch_spec(after.contents()[id]) == Some(
                sys.step(data, res).1,
            ),
    {
        self.lemma_wf();
        assert(self.ids().to_set().contains(id));
        dispatch::lemma_dispatch_output(sys, res, self.ids(), self.contents(), id, data);
        dispatch::lemma_dispatch_stateless(sys, res, self.ids(), self.contents(), id);
    }

    /// Two dispatches in a row of a system whose state never changes apply it
    /// twice to every entity that holds the data shape.
    pub proof fn lemma_dispatch_twice<S: System<V>>(
        self,
        sys: S,
        mid: Self,
        sys_mid: S,
        after: Self,
        sys_after: S,
        res: S::Resources,
        id: Eid,
        data: S::Data,
    )
        requires
            self.wf(),
            mid.wf(),
            self.dispatched(sys, mid, sys_mid),
            mid.dispatched(sys_mid, after, sys_after),
            <S::Resources as SystemData<V>>::fetch_spec(self.resource_table()) == Some(res),
            dispatch::stateless(sys, res),
            <S::Data as SystemData<V>>::faithful(),
            self.contents().contains_key(id),
            <S::Data as SystemData<V>>::fetch_spec(self.contents()[id]) == Some(data),
        ensures
            sys_after == sys,
            <S::Data as SystemData<V>>::fetch_spec(after.contents()[id]) == Some(
                sys.step(sys.step(data, res).1, res).1,
            ),
    {
        self.lemma_dispatch_output(sys, mid, sys_mid, res, id, data);
        mid.lemma_wf();
        self.lemma_wf();
        dispatch::lemma_dispatch_frame(sys, res, self.ids(), self.contents(), id);
        mid.lemma_dispatch_output(sys, after, sys_after, res, id, sys.step(data, res).1);
    }

    /// The identity that the next entity will get; a build needs it to be
    /// below `usize::MAX`.
    pub fn next_entity_id(&self) -> (id: Eid)
        ensures
            id == self.next_id(),
    {
        self.next_entity_id
    }

    /// The entities, by identity.
    pub fn entities(&self) -> (r: &MapStorage<Entity<V>>)
        ensures
            r@.map_values(|e: Entity<V>| e@) == self.contents(),
            self.wf() ==> r.well_formed(),
    {
        &self.entities
    }

    /// Records that component type `C` is known; returns whether it was new.
    /// Registration is bookkeeping only: fetching and dispatch ignore it.
    pub fn register_component<C: Component<Erased = V>>(&mut self) -> (added: bool)
        requires
            old(self).wf(),
        ensures
            final(self).wf(),
            old(self).registers(C::kind(), added, *final(self)),
    {
        self.component_ids.insert(C::type_tag())
    }

    /// Starts building an entity; `EntityBuilder::build` adds it to a world.
    pub fn create_entity(&self) -> (b: EntityBuilder<V>)
        ensures
            b.wf(),
            b@ == Map::<usize, V>::empty(),
    {
        EntityBuilder::new()
    }

    /// Stores `e` under the next identity, which is returned.
    pub fn insert_entity(&mut self, e: Entity<V>) -> (id: Eid)
        requires
            old(self).wf(),
            e.wf(),
            old(self).next_id() < usize::MAX,
        ensures
            final(self).wf(),
            old(self).inserts(e@, id, *final(self)),
    {
        let id = self.next_entity_id;
        proof {
            self.entities.lemma_view();
        }
        self.entities.push(id, e);
        self.next_entity_id = id + 1;
        proof {
            assert(self.contents() =~= old(self).contents().insert(id, e@));
        }
        id
    }

    /// The component of type `C` of entity `entity`; absent when there is no
    /// such entity or it lacks the component.
    pub fn get_component_for_entity<C: Component<Erased = V>>(&self, entity: &Eid) -> (r: Option<&C>)
        requires
            self.wf(),
        ensures
            match self.component_of::<C>(*entity) {
                Some(c) => r is Some && *r.unwrap() == c,
                None => r is None,
            },
    {
        match self.entities.get(entity) {
            Some(e) => e.get_component::<C>(),
            None => None,
        }
    }

    /// Adds `component` to entity `entity`, replacing the component of its
    /// type if the entity had one; that previous component is returned. An
    /// unknown identity is an error that hands the component back, and
    /// changes nothing.
    pub fn add_component_to_entity<C: Component<Erased = V>>(
        &mut self,
        entity: &Eid,
        component: C,
    ) -> (r: Result<Option<Box<C>>, C>)
        requires
            old(self).wf(),
        ensures
            final(self).wf(),
            old(self).contents().contains_key(*entity) ==> {
                &&& r is Ok
                &&& final(self).contents() == old(self).contents().insert(
                    *entity,
                    old(self).contents()[*entity].insert(C::kind(), component.pack()),
                )
                &&& final(self).component_of::<C>(*entity) == Some(component)
                &&& match old(self).component_of::<C>(*entity) {
                    Some(c) => r->Ok_0 is Some && *r->Ok_0.unwrap() == c,
                    None => r->Ok_0 is None,
                }
            },
            !old(self).contents().contains_key(*entity) ==> {
                &&& r == Err::<Option<Box<C>>, C>(component)
                &&& final(self).contents() == old(self).contents()
            },
            final(self).ids() == old(self).ids(),
            final(self).next_id() == old(self).next_id(),
            final(self).registered() == old(self).registered(),
            final(self).resource_table() == old(self).resource_table(),
    {
        match self.entities.get_mut(entity) {
            Some(e) => {
                let prev = e.add_component(component);
                proof {
                    assert(self.contents() =~= old(self).contents().insert(
                        *entity,
                        old(self).contents()[*entity].insert(C::kind(), component.pack()),
                    ));
                }
                Ok(prev)
            },
            None => Err(component),
        }
    }

    /// Removes the component of type `C` from entity `entity` and returns it;
    /// absent when there is no such entity or it lacks the component.
    pub fn remove_component_from_entity<C: Component<Erased = V>>(&mut self, entity: &Eid) -> (r:
        Option<Box<C>>)
        requires
            old(self).wf(),
        ensures
            final(self).wf(),
            final(self).contents() == (if old(self).contents().contains_key(*entity) {
                old(self).contents().insert(
                    *entity,
                    old(self).contents()[*entity].remove(C::kind()),
                )
            } else {
                old(self).contents()
            }),
            match old(self).component_of::<C>(*entity) {
                Some(c) => r is Some && *r.unwrap() == c,
                None => r is None,
            },
            final(self).ids() == old(self).ids(),
            final(self).next_id() == old(self).next_id(),
            final(self).registered() == old(self).registered(),
            final(self).resource_table() == old(self).resource_table(),
    {
        match self.entities.get_mut(entity) {
            Some(e) => {
                let r = e.remove_component::<C>();
                proof {
                    assert(self.contents() =~= old(self).contents().insert(
                        *entity,
                        old(self).contents()[*entity].remove(C::kind()),
                    ));
                }
                r
            },
            None => None,
        }
    }

    /// Removes entity `entity` with all its components and returns it; absent
    /// when there is no such entity.
    pub fn destroy_entity(&mut self, entity: &Eid) -> (r: Option<Entity<V>>)
        requires
            old(self).wf(),
        ensures
            final(self).wf(),
            final(self).contents() == old(self).contents().remove(*entity),
            final(self).ids() == old(self).ids().remove_value(*entity),
            match r {
                Some(e) => {
                    &&& old(self).contents().contains_key(*entity)
                    &&& e@ == old(self).contents()[*entity]
                    &&& e.wf()
                },
                None => !old(self).contents().contains_key(*entity),
            },
            final(self).next_id() == old(self).next_id(),
            final(self).registered() == old(self).registered(),
            final(self).resource_table() == old(self).resource_table(),
    {
        let r = self.entities.remove(entity);
        proof {
            assert(self.contents() =~= old(self).contents().remove(*entity));
        }
        r
    }

    /// Stores `resource`, replacing the resource of its type if the world had
    /// one; that previous resource is returned.
    pub fn add_resource<R: Resource<Erased = V>>(&mut self, resource: R) -> (prev: Option<R>)
        requires
            old(self).wf(),
        ensures
            final(self).wf(),
            final(self).resource_table() == old(self).resource_table().insert(
                R::kind(),
                resource.pack(),
            ),
            component::lookup::<R>(final(self).resource_table()) == Some(resource),
            prev == component::lookup::<R>(old(self).resource_table()),
            final(self).contents() == old(self).contents(),
            final(self).ids() == old(self).ids(),
            final(self).next_id() == old(self).next_id(),
            final(self).registered() == old(self).registered(),
    {
        match self.resources.add_component(resource) {
            Some(b) => Some(*b),
            None => None,
        }
    }

    /// The resource of type `R`, if the world holds one.
    pub fn get_resource<R: Resource<Erased = V>>(&self) -> (r: Option<&R>)
        requires
            self.wf(),
        ensures
            match component::lookup::<R>(self.resource_table()) {
                Some(c) => r is Some && *r.unwrap() == c,
                None => r is None,
            },
    {
        self.resources.get_component::<R>()
    }

    /// Runs `sys` once on every entity that holds its whole data shape, in
    /// the order of `ids`, writing each result back into its entity. Entities
    /// that lack a member of the shape are skipped; when the world lacks one
    /// of the system's resources, nothing runs.
    pub fn dispatch_system<S: System<V>>(&mut self, sys: &mut S)
        requires
            old(self).wf(),
        ensures
            final(self).wf(),
            old(self).dispatched(*old(sys), *final(self), *final(sys)),
    {
        match S::Resources::fetch(&self.resources) {
            None => {},
            Some(res) => {
                proof {
                    self.entities.lemma_view();
                }
                let n = self.entities.len();
                let mut i: usize = 0;
                while i < n
                    invariant
                        self.wf(),
                        0 <= i <= n,
                        n == self.ids().len(),
                        self.ids() == old(self).ids(),
                        self.next_id() == old(self).next_id(),
                        self.registered() == old(self).registered(),
                        self.resource_table() == old(self).resource_table(),
                        <S::Resources as SystemData<V>>::fetch_spec(self.resource_table()) == Some(
                            res,
                        ),
                        (*sys, self.contents()) == dispatch::dispatch_over(
                            *old(sys),
                            res,
                            self.ids().take(i as int),
                            old(self).contents(),
                        ),
                    decreases n - i,
                {
                    proof {
                        self.entities.lemma_view();
                        assert(self.ids().take(i + 1).drop_last() =~= self.ids().take(i as int));
                    }
                    let ghost before = self.contents();
                    let ghost id = self.ids()[i as int];
                    proof {
                        assert(self.entities.key_seq().contains(id));
                        assert(self.entities@.contains_key(id));
                        assert(self.entities.value_seq()[i as int].wf());
                    }
                    let e = self.entities.value_at_mut(i);
                    match S::Data::fetch(e) {
                        Some(d) => {
                            let mut data = d;
                            sys.run(&mut data, &res);
                            e.set::<S>(data);
                        },
                        None => {},
                    }
                    proof {
                        assert(self.contents() =~= before.insert(id, self.entities@[id]@));
                    }
                    i += 1;
                }
                proof {
                    assert(self.ids().take(n as int) =~= self.ids());
                }
            },
        }
    }
}

impl<V> Default for World<V> {
    /// A world without entities, registrations or resources.
    fn default() -> (w: Self)
        ensures
            w.wf(),
            w.contents() == Map::<Eid, Map<usize, V>>::empty(),
            w.ids() == Seq::<Eid>::empty(),
            w.next_id() == 0,
            w.registered() == Set::<usize>::empty(),
            w.resource_table() == Map::<usize, V>::empty(),
    {
        let w = World {
            component_ids: HashSet::new(),
            entities: MapStorage::new(),
            resources: Entity::default(),
            next_entity_id: 0,
        };
        proof {
            w.entities.lemma_view();
            assert(w.ids() =~= Seq::<Eid>::empty());
            assert(w.contents() =~= Map::<Eid, Map<usize, V>>::empty());
        }
        w
    }
}

} // verus!
