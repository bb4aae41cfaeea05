//! A small entity-component-system core.
//!
//! Entities are integer identities that own typed components; systems declare
//! the component shape they need and run once per entity that holds it.
//!
//! Each entity keeps its components in a table from kind tags to values of
//! one erased representation, chosen by the user (see [`Component`]). A
//! dispatch copies a system's data out of every entity that holds all of it,
//! runs the system on the copy, and writes the copy back.
pub mod component;
pub mod dispatch;
pub mod entity;
pub mod storage;
pub mod system;
pub mod world;

pub use component::{Component, Resource};
pub use entity::{Entity, EntityBuilder};
pub use storage::{Eid, GenericStorage, MapStorage};
pub use system::{System, SystemData};
pub use world::World;
