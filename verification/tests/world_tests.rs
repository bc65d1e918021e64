use physics_engine::ecs::{Entity, EntityId, World};

#[test]
fn entity_test_entity_creation() {
    let entity = Entity::new(42, 1);
    assert_eq!(entity.id().raw(), 42);
    assert_eq!(entity.generation(), 1);
}

#[test]
fn test_entity_equality() {
    let e1 = Entity::new(1, 0);
    let e2 = Entity::new(1, 0);
    let e3 = Entity::new(1, 1);
    assert_eq!(e1, e2);
    assert_ne!(e1, e3);
}

#[test]
fn test_world_creation() {
    let world = World::new();
    assert_eq!(world.entity_count(), 0);
}

#[test]
fn mod_test_entity_creation() {
    let mut world = World::new();
    let entity = world.create_entity();
    assert_eq!(world.entity_count(), 1);
    assert!(world.is_entity_alive(entity));
}

#[test]
fn test_world_entity_lifecycle() {
    let mut world = World::new();

    let e1 = world.create_entity();
    let e2 = world.create_entity();

    assert_eq!(world.entity_count(), 2);
    assert!(world.is_entity_alive(e1));
    assert!(world.is_entity_alive(e2));

    world.destroy_entity(e1);
    assert_eq!(world.entity_count(), 1);
    assert!(!world.is_entity_alive(e1));
    assert!(world.is_entity_alive(e2));
}

#[test]
fn test_entity_generation() {
    let mut world = World::new();

    let e1 = world.create_entity();
    let id = e1.id();
    let gen1 = e1.generation();

    world.destroy_entity(e1);
    let e2 = world.create_entity();

    if e2.id() == id {
        assert_ne!(e2.generation(), gen1);
    }
}

#[test]
fn test_world_clear() {
    let mut world = World::new();
    world.create_entity();
    world.create_entity();

    assert_eq!(world.entity_count(), 2);
    world.clear();
    assert_eq!(world.entity_count(), 0);
}

// Identifiers are handed out in order, each with generation zero.
#[test]
fn test_create_hands_out_fresh_ids() {
    let mut world = World::default();
    let a = world.create_entity();
    let b = world.create_entity();
    assert_eq!(a, Entity::new(0, 0));
    assert_eq!(b, Entity::new(1, 0));
    assert_ne!(a, b);
}

// A destroyed handle stays dead while new entities are created.
#[test]
fn test_destroyed_entity_stays_stale() {
    let mut world = World::new();
    let a = world.create_entity();
    assert!(world.destroy_entity(a));
    for _ in 0..5 {
        let fresh = world.create_entity();
        assert_ne!(fresh, a);
        assert!(!world.is_entity_alive(a));
    }
    assert_eq!(world.entity_count(), 5);
}

// Destroying twice reports false the second time and changes nothing.
#[test]
fn test_double_destroy() {
    let mut world = World::new();
    let a = world.create_entity();
    let b = world.create_entity();
    assert!(world.destroy_entity(a));
    assert!(!world.destroy_entity(a));
    assert_eq!(world.entity_count(), 1);
    assert!(world.is_entity_alive(b));
    // A handle the world never handed out is not alive and cannot be destroyed.
    assert!(!world.destroy_entity(Entity::new(99, 0)));
    assert!(!world.is_entity_alive(Entity::new(b.id().raw(), 1)));
}

#[test]
fn test_entities_lists_live_entities_once() {
    let mut world = World::new();
    let a = world.create_entity();
    let b = world.create_entity();
    let c = world.create_entity();
    world.destroy_entity(b);
    let mut live = world.entities();
    live.sort_by_key(|e| e.id().raw());
    assert_eq!(live, vec![a, c]);
    world.clear();
    assert!(world.entities().is_empty());
    // After clearing, identifiers start over.
    assert_eq!(world.create_entity(), Entity::new(0, 0));
}

#[test]
fn test_display_strings() {
    assert_eq!(EntityId::new(7).to_display_string(), "Entity(7)");
    assert_eq!(Entity::new(7, 3).to_display_string(), "Entity(7, gen: 3)");
    assert_eq!(EntityId::new(7).raw(), 7);
}

#[test]
fn test_decimal_string() {
    use_decimal();
}

fn use_decimal() {
    assert_eq!(physics_engine::ecs::entity::decimal_string(0), "0");
    assert_eq!(physics_engine::ecs::entity::decimal_string(9), "9");
    assert_eq!(physics_engine::ecs::entity::decimal_string(10), "10");
    assert_eq!(physics_engine::ecs::entity::decimal_string(1234567890), "1234567890");
    assert_eq!(physics_engine::ecs::entity::decimal_string(u64::MAX), "18446744073709551615");
    assert_eq!(Entity::new(u64::MAX, u32::MAX).to_display_string(), "Entity(18446744073709551615, gen: 4294967295)");
}
