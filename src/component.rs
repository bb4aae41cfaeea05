use vstd::prelude::*;

verus! {

/// A data type that entities can hold.
///
/// An entity keeps its components type-erased: all component types that live
/// in one world share a stored representation, `Self::Erased` (typically an
/// enum with one variant per component type), and each component type has a
/// kind tag that names its slot in an entity. Distinct component types of one
/// representation must have distinct kinds, and unpacking a stored value must
/// give back the component that was packed into it.
///
/// `kind`, `pack` and `unpack` state what the executable methods do; outside
/// verification they are ordinary functions, which an implementation writes
/// alongside `type_tag`, `into_erased` and `from_erased`.
pub trait Component: Sized + Copy {
    /// The representation that components are stored in.
    type Erased;

    /// The kind tag of this component type.
    spec fn kind() -> usize;

    /// The stored form of a component.
    spec fn pack(self) -> Self::Erased;

    /// The component of this type that a stored value holds, if it holds one.
    spec fn unpack(value: Self::Erased) -> Option<Self>;

    /// The kind tag of this component type.
    fn type_tag() -> (tag: usize)
        ensures
            tag == Self::kind(),
    ;

    /// Wraps the component into its stored form.
    fn into_erased(self) -> (value: Self::Erased)
        ensures
            value == self.pack(),
            Self::unpack(value) == Some(self),
    ;

    /// A reference to the component that `value` holds, if it is of this type.
    fn from_erased(value: &Self::Erased) -> (r: Option<&Self>)
        ensures
            match Self::unpack(*value) {
                Some(c) => r is Some && *r.unwrap() == c,
                None => r is None,
            },
    ;

    /// A mutable reference to the component that `value` holds, if it is of
    /// this type; writing through it writes the stored value.
    fn from_erased_mut(value: &mut Self::Erased) -> (r: Option<&mut Self>)
        ensures
            match Self::unpack(*old(value)) {
                Some(c) => {
                    &&& r is Some
                    &&& *r.unwrap() == c
                    &&& *final(value) == (*final(r.unwrap())).pack()
                },
                None => r is None && *final(value) == *old(value),
            },
    ;
}

/// Unpacking what was packed gives the component back, for every component
/// of type `C`.
pub open spec fn faithful<C: Component>() -> bool {
    forall|c: C| C::unpack(#[trigger] c.pack()) == Some(c)
}

/// The component of type `C` that a table of stored values holds, if any.
pub open spec fn lookup<C: Component>(table: Map<usize, C::Erased>) -> Option<C> {
    if table.contains_key(C::kind()) {
        C::unpack(table[C::kind()])
    } else {
        None
    }
}

/// A component that was just stored is read back, whether it was added or
/// written through a mutable reference.
pub proof fn lemma_get_after_add<C: Component>(table: Map<usize, C::Erased>, c: C)
    requires
        faithful::<C>(),
    ensures
        lookup::<C>(table.insert(C::kind(), c.pack())) == Some(c),
{
    assert(C::unpack(c.pack()) == Some(c));
}

/// Storing a component leaves the components of every other kind as they were.
pub proof fn lemma_add_keeps_others<C: Component, D: Component<Erased = C::Erased>>(
    table: Map<usize, C::Erased>,
    c: C,
)
    requires
        C::kind() != D::kind(),
    ensures
        lookup::<D>(table.insert(C::kind(), c.pack())) == lookup::<D>(table),
{
}

/// After a component type is removed, reading it finds nothing.
pub proof fn lemma_get_after_remove<C: Component>(table: Map<usize, C::Erased>)
    ensures
        lookup::<C>(table.remove(C::kind())) is None,
{
}

/// A singleton value held by the world rather than by an entity. Resources
/// are stored like components, in the world's own table.
pub trait Resource: Component {}

} // verus!
