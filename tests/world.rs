use ecsnap::{Component, GenericStorage, System, World};

#[derive(Debug, Clone, Copy, PartialEq)]
struct Pos {
    x: f64,
    y: f64,
}

#[derive(Debug, Clone, Copy, PartialEq)]
struct Vel {
    x: f64,
    y: f64,
}

#[derive(Debug, Clone, Copy, PartialEq)]
enum Comp {
    Pos(Pos),
    Vel(Vel),
}

impl Component for Pos {
    type Erased = Comp;

    fn kind() -> usize {
        0
    }

    fn pack(self) -> Comp {
        Comp::Pos(self)
    }

    fn unpack(value: Comp) -> Option<Pos> {
        match value {
            Comp::Pos(p) => Some(p),
            _ => None,
        }
    }

    fn type_tag() -> usize {
        0
    }

    fn into_erased(self) -> Comp {
        Comp::Pos(self)
    }

    fn from_erased(value: &Comp) -> Option<&Pos> {
        match value {
            Comp::Pos(p) => Some(p),
            _ => None,
        }
    }

    fn from_erased_mut(value: &mut Comp) -> Option<&mut Pos> {
        match value {
            Comp::Pos(p) => Some(p),
            _ => None,
        }
    }
}

impl Component for Vel {
    type Erased = Comp;

    fn kind() -> usize {
        1
    }

    fn pack(self) -> Comp {
        Comp::Vel(self)
    }

    fn unpack(value: Comp) -> Option<Vel> {
        match value {
            Comp::Vel(v) => Some(v),
            _ => None,
        }
    }

    fn type_tag() -> usize {
        1
    }

    fn into_erased(self) -> Comp {
        Comp::Vel(self)
    }

    fn from_erased(value: &Comp) -> Option<&Vel> {
        match value {
            Comp::Vel(v) => Some(v),
            _ => None,
        }
    }

    fn from_erased_mut(value: &mut Comp) -> Option<&mut Vel> {
        match value {
            Comp::Vel(v) => Some(v),
            _ => None,
        }
    }
}

struct ReadSys {}

impl System<Comp> for ReadSys {
    type Data = (Pos, Vel);
    type Resources = ();

    fn step(self, data: (Pos, Vel), _resources: ()) -> (ReadSys, (Pos, Vel)) {
        let (mut pos, vel) = data;
        pos.x += 10.0;
        pos.y += 5.0;
        (self, (pos, vel))
    }

    fn run(&mut self, data: &mut (Pos, Vel), _resources: &()) {
        let (pos, vel) = data;
        println!("Pos: {:?}", pos);
        println!("Vel: {:?}", vel);
        pos.x += 10.0;
        pos.y += 5.0;
    }
}

#[test]
fn ideal() {
    let mut world: World<Comp> = World::default();
    world
        .create_entity()
        .with(Pos { x: 0.0, y: 0.0 })
        .with(Vel { x: 1.6, y: -4.5 })
        .build(&mut world);

    let mut rs = ReadSys {};
    println!("Dispatching System!");
    world.dispatch_system(&mut rs);
    world.dispatch_system(&mut rs);
}

#[test]
fn test_register_component() {
    let mut world: World<Comp> = Default::default();
    let val = world.register_component::<Pos>();

    assert!(val);
}

#[test]
fn test_add_component_to_entity() {
    let mut world: World<Comp> = Default::default();
    world.register_component::<Pos>();
    world.register_component::<Vel>();

    let e1 = world
        .create_entity()
        .with(Pos { x: 0.0, y: 0.0 })
        .with(Vel { x: 0.0, y: 0.0 })
        .build(&mut world);
    let e2 = world.create_entity().with(Pos { x: 3.0, y: 3.0 }).build(&mut world);

    let e1_pos = world.get_component_for_entity::<Pos>(&e1);
    let e1_vel = world.get_component_for_entity::<Vel>(&e1);
    let e2_pos = world.get_component_for_entity::<Pos>(&e2);
    let e2_vel = world.get_component_for_entity::<Vel>(&e2);

    assert!(e1_pos.is_some());
    assert!(e1_pos.unwrap().x == 0.0);
    assert!(e1_pos.unwrap().y == 0.0);
    assert!(e1_vel.is_some());
    assert!(e1_vel.unwrap().x == 0.0);
    assert!(e1_vel.unwrap().y == 0.0);
    assert!(e2_pos.is_some());
    assert!(e2_pos.unwrap().x == 3.0);
    assert!(e2_pos.unwrap().y == 3.0);
    assert!(e2_vel.is_none());
}

#[test]
fn test_remove_component_from_entity() {
    let mut world: World<Comp> = Default::default();
    world.register_component::<Pos>();
    world.register_component::<Vel>();

    let e = world
        .create_entity()
        .with(Pos { x: 0.0, y: 0.0 })
        .with(Vel { x: 0.0, y: 0.0 })
        .build(&mut world);

    let e_pos = world.get_component_for_entity::<Pos>(&e);
    let e_vel = world.get_component_for_entity::<Vel>(&e);

    assert!(e_pos.is_some());
    assert!(e_pos.unwrap().x == 0.0);
    assert!(e_pos.unwrap().y == 0.0);
    assert!(e_vel.is_some());
    assert!(e_vel.unwrap().x == 0.0);
    assert!(e_vel.unwrap().y == 0.0);

    let val = world.remove_component_from_entity::<Vel>(&e);
    assert!(val.is_some());
    let val = val.unwrap();
    assert_eq!((*val).x, 0.0);
    assert_eq!((*val).y, 0.0);

    let val = world.remove_component_from_entity::<Vel>(&e);
    assert!(val.is_none());
}

#[test]
fn test_destroy_entity() {
    let mut world: World<Comp> = Default::default();
    world.register_component::<Pos>();
    world.register_component::<Vel>();

    let e1 = world
        .create_entity()
        .with(Pos { x: 0.0, y: 0.0 })
        .with(Vel { x: 0.0, y: 0.0 })
        .build(&mut world);
    let e2 = world.create_entity().with(Pos { x: 0.0, y: 0.0 }).build(&mut world);

    world.destroy_entity(&e1);

    let dead_e = world.entities().get(&e1);
    assert!(dead_e.is_none());
    let alive_e = world.entities().get(&e2);
    assert!(alive_e.is_some());
}
