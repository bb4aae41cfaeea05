use vstd::prelude::*;
use crate::storage::Eid;
use crate::system::{System, SystemData};

verus! {

/// One entity's turn in a dispatch: when the entity holds the system's whole
/// data shape, the system runs on a copy of that data and the result is
/// written back; otherwise the entity and the system stay as they are.
pub open spec fn visit<V, S: System<V>>(
    sys: S,
    resources: S::Resources,
    table: Map<usize, V>,
) -> (S, Map<usize, V>) {
    match <S::Data as SystemData<V>>::fetch_spec(table) {
        Some(data) => {
            let (next, out) = sys.step(data, resources);
            (next, out.write_spec(table))
        },
        None => (sys, table),
    }
}

/// A dispatch over the entities `ids`, visited in order.
pub open spec fn dispatch_over<V, S: System<V>>(
    sys: S,
    resources: S::Resources,
    ids: Seq<Eid>,
    tables: Map<Eid, Map<usize, V>>,
) -> (S, Map<Eid, Map<usize, V>>)
    decreases ids.len(),
{
    if ids.len() == 0 {
        (sys, tables)
    } else {
        let (s, t) = dispatch_over(sys, resources, ids.drop_last(), tables);
        let (s2, e2) = visit(s, resources, t[ids.last()]);
        (s2, t.insert(ids.last(), e2))
    }
}

/// Every identity of `ids` names an entity of `tables`, and none comes twice.
pub open spec fn covers<V>(ids: Seq<Eid>, tables: Map<Eid, Map<usize, V>>) -> bool {
    &&& ids.no_duplicates()
    &&& forall|i: int| 0 <= i < ids.len() ==> tables.contains_key(#[trigger] ids[i])
}

/// A run of the system with `resources` never changes the system's own state.
pub open spec fn stateless<V, S: System<V>>(sys: S, resources: S::Resources) -> bool {
    forall|data: S::Data| (#[trigger] sys.step(data, resources)).0 == sys
}

proof fn lemma_covers_prefix<V>(ids: Seq<Eid>, tables: Map<Eid, Map<usize, V>>)
    requires
        covers(ids, tables),
        ids.len() > 0,
    ensures
        covers(ids.drop_last(), tables),
        !ids.drop_last().contains(ids.last()),
        tables.contains_key(ids.last()),
{
    let prefix = ids.drop_last();
    assert forall|i: int| 0 <= i < prefix.len() implies tables.contains_key(#[trigger] prefix[i]) by {
        assert(prefix[i] == ids[i]);
    }
    assert forall|a: int, b: int| 0 <= a < prefix.len() && 0 <= b < prefix.len() && a != b implies prefix[a]
        != prefix[b] by {
        assert(prefix[a] == ids[a] && prefix[b] == ids[b]);
    }
    if prefix.contains(ids.last()) {
        let j = choose|j: int| 0 <= j < prefix.len() && prefix[j] == ids.last();
        assert(ids[j] == ids[ids.len() - 1]);
    }
    assert(tables.contains_key(ids[ids.len() - 1]));
}

/// Dispatch keeps the set of entities, and leaves the entities outside `ids`
/// as they were.
pub proof fn lemma_dispatch_frame<V, S: System<V>>(
    sys: S,
    resources: S::Resources,
    ids: Seq<Eid>,
    tables: Map<Eid, Map<usize, V>>,
    id: Eid,
)
    requires
        covers(ids, tables),
    ensures
        dispatch_over(sys, resources, ids, tables).1.dom() == tables.dom(),
        !ids.contains(id) ==> dispatch_over(sys, resources, ids, tables).1[id] == tables[id],
    decreases ids.len(),
{
    if ids.len() > 0 {
        let prefix = ids.drop_last();
        lemma_covers_prefix(ids, tables);
        lemma_dispatch_frame(sys, resources, prefix, tables, id);
        let t = dispatch_over(sys, resources, prefix, tables).1;
        assert(t.insert(ids.last(), arbitrary()).dom() =~= tables.dom());
        if !ids.contains(id) {
            if prefix.contains(id) {
                let j = choose|j: int| 0 <= j < prefix.len() && prefix[j] == id;
                assert(ids[j] == id);
            }
            assert(ids[ids.len() - 1] != id);
        }
    }
}

/// An entity that lacks a member of the system's data shape is left as it
/// was by dispatch, whatever the system does to the others.
pub proof fn lemma_dispatch_skips<V, S: System<V>>(
    sys: S,
    resources: S::Resources,
    ids: Seq<Eid>,
    tables: Map<Eid, Map<usize, V>>,
    id: Eid,
)
    requires
        covers(ids, tables),
        tables.contains_key(id),
        <S::Data as SystemData<V>>::fetch_spec(tables[id]) is None,
    ensures
        dispatch_over(sys, resources, ids, tables).1[id] == tables[id],
    decreases ids.len(),
{
    if ids.len() > 0 {
        let prefix = ids.drop_last();
        lemma_covers_prefix(ids, tables);
        if ids.last() == id {
            lemma_dispatch_frame(sys, resources, prefix, tables, id);
        } else {
            lemma_dispatch_skips(sys, resources, prefix, tables, id);
        }
    }
}

/// When no entity holds the system's whole data shape, dispatch never runs
/// the system: the system and every entity stay as they were.
pub proof fn lemma_dispatch_no_match<V, S: System<V>>(
    sys: S,
    resources: S::Resources,
    ids: Seq<Eid>,
    tables: Map<Eid, Map<usize, V>>,
)
    requires
        covers(ids, tables),
        forall|i: int|
            0 <= i < ids.len() ==> (<S::Data as SystemData<V>>::fetch_spec(
                #[trigger] tables[ids[i]],
            ) is None),
    ensures
        dispatch_over(sys, resources, ids, tables) == (sys, tables),
    decreases ids.len(),
{
    if ids.len() > 0 {
        let prefix = ids.drop_last();
        lemma_covers_prefix(ids, tables);
        assert forall|i: int| 0 <= i < prefix.len() implies (<S::Data as SystemData<V>>::fetch_spec(
            #[trigger] tables[prefix[i]],
        ) is None) by {
            assert(prefix[i] == ids[i]);
        }
        lemma_dispatch_no_match(sys, resources, prefix, tables);
        assert(<S::Data as SystemData<V>>::fetch_spec(tables[ids[ids.len() - 1]]) is None);
        assert(tables.insert(ids.last(), tables[ids.last()]) =~= tables);
    }
}

/// A system whose state never changes is run on every entity independently:
/// each entity of `ids` ends as its own visit leaves it.
pub proof fn lemma_dispatch_stateless<V, S: System<V>>(
    sys: S,
    resources: S::Resources,
    ids: Seq<Eid>,
    tables: Map<Eid, Map<usize, V>>,
    id: Eid,
)
    requires
        covers(ids, tables),
        stateless(sys, resources),
    ensures
        dispatch_over(sys, resources, ids, tables).0 == sys,
        ids.contains(id) ==> dispatch_over(sys, resources, ids, tables).1[id] == visit(
            sys,
            resources,
            tables[id],
        ).1,
    decreases ids.len(),
{
    if ids.len() > 0 {
        let prefix = ids.drop_last();
        lemma_covers_prefix(ids, tables);
        lemma_dispatch_stateless(sys, resources, prefix, tables, id);
        let t = dispatch_over(sys, resources, prefix, tables).1;
        lemma_dispatch_frame(sys, resources, prefix, tables, ids.last());
        match <S::Data as SystemData<V>>::fetch_spec(t[ids.last()]) {
            Some(data) => {
                assert(sys.step(data, resources).0 == sys);
            },
            None => {},
        }
        if ids.contains(id) && id != ids.last() {
            let j = choose|j: int| 0 <= j < ids.len() && ids[j] == id;
            assert(prefix[j] == id);
        }
    }
}

/// For a system whose state never changes, every entity that held the data
/// shape holds the system's output after dispatch, and reads it back.
pub proof fn lemma_dispatch_output<V, S: System<V>>(
    sys: S,
    resources: S::Resources,
    ids: Seq<Eid>,
    tables: Map<Eid, Map<usize, V>>,
    id: Eid,
    data: S::Data,
)
    requires
        covers(ids, tables),
        stateless(sys, resources),
        <S::Data as SystemData<V>>::faithful(),
        ids.contains(id),
        <S::Data as SystemData<V>>::fetch_spec(tables[id]) == Some(data),
    ensures
        dispatch_over(sys, resources, ids, tables).1[id] == sys.step(
            data,
            resources,
        ).1.write_spec(tables[id]),
        <S::Data as SystemData<V>>::fetch_spec(dispatch_over(sys, resources, ids, tables).1[id])
            == Some(sys.step(data, resources).1),
{
    lemma_dispatch_stateless(sys, resources, ids, tables, id);
    sys.step(data, resources).1.lemma_fetch_written(tables[id]);
}

} // verus!
