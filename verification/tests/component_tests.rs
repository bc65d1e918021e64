use physics_engine::ecs::{ColumnStorage, Component, Entity, HashMapStorage, SoAStorage};

#[derive(Debug, Clone, Copy, PartialEq)]
struct TestComponent {
    x: f32,
    y: f32,
}

impl Component for TestComponent {}

#[test]
fn test_hashmap_storage() {
    let mut storage = HashMapStorage::<TestComponent>::new();
    let entity = Entity::new(1, 0);

    let comp = TestComponent { x: 10.0, y: 20.0 };
    storage.insert(entity, comp);

    assert!(storage.contains(entity));
    assert_eq!(storage.get(entity).unwrap().x, 10.0);

    storage.remove(entity);
    assert!(!storage.contains(entity));
}

#[test]
fn test_soa_storage_basic() {
    let mut storage = SoAStorage::<TestComponent>::new();
    let entity = Entity::new(1, 0);

    let comp = TestComponent { x: 10.0, y: 20.0 };
    storage.insert(entity, comp);

    assert!(storage.contains(entity));
    assert_eq!(storage.get(entity).unwrap().x, 10.0);
    assert_eq!(storage.get(entity).unwrap().y, 20.0);

    let removed = storage.remove(entity);
    assert_eq!(removed, Some(comp));
    assert!(!storage.contains(entity));
}

#[test]
fn test_soa_storage_multiple_entities() {
    let mut storage = SoAStorage::<TestComponent>::new();
    let e1 = Entity::new(1, 0);
    let e2 = Entity::new(2, 0);
    let e3 = Entity::new(3, 0);

    storage.insert(e1, TestComponent { x: 1.0, y: 2.0 });
    storage.insert(e2, TestComponent { x: 3.0, y: 4.0 });
    storage.insert(e3, TestComponent { x: 5.0, y: 6.0 });

    assert_eq!(storage.len(), 3);
    assert!(storage.contains(e1));
    assert!(storage.contains(e2));
    assert!(storage.contains(e3));

    assert_eq!(storage.get(e2).unwrap().x, 3.0);

    storage.remove(e2);
    assert_eq!(storage.len(), 2);
    assert!(!storage.contains(e2));
    assert!(storage.contains(e1));
    assert!(storage.contains(e3));
}

#[test]
fn test_soa_storage_update() {
    let mut storage = SoAStorage::<TestComponent>::new();
    let entity = Entity::new(1, 0);

    storage.insert(entity, TestComponent { x: 1.0, y: 2.0 });
    assert_eq!(storage.get(entity).unwrap().x, 1.0);

    storage.insert(entity, TestComponent { x: 10.0, y: 20.0 });
    assert_eq!(storage.len(), 1);
    assert_eq!(storage.get(entity).unwrap().x, 10.0);
    assert_eq!(storage.get(entity).unwrap().y, 20.0);
}

#[test]
fn test_soa_storage_get_mut() {
    let mut storage = SoAStorage::<TestComponent>::new();
    let entity = Entity::new(1, 0);

    storage.insert(entity, TestComponent { x: 1.0, y: 2.0 });

    if let Some(comp) = storage.get_mut(entity) {
        comp.x = 100.0;
        comp.y = 200.0;
    }

    assert_eq!(storage.get(entity).unwrap().x, 100.0);
    assert_eq!(storage.get(entity).unwrap().y, 200.0);
}

#[test]
fn test_soa_storage_clear() {
    let mut storage = SoAStorage::<TestComponent>::new();

    storage.insert(Entity::new(1, 0), TestComponent { x: 1.0, y: 2.0 });
    storage.insert(Entity::new(2, 0), TestComponent { x: 3.0, y: 4.0 });
    assert_eq!(storage.len(), 2);

    storage.clear();
    assert_eq!(storage.len(), 0);
    assert!(storage.is_empty());
}

#[test]
fn test_soa_storage_entity_generations() {
    let mut storage = SoAStorage::<TestComponent>::new();
    let e1_gen0 = Entity::new(1, 0);
    let e1_gen1 = Entity::new(1, 1);

    storage.insert(e1_gen0, TestComponent { x: 1.0, y: 2.0 });
    assert!(storage.contains(e1_gen0));
    assert!(!storage.contains(e1_gen1));

    storage.remove(e1_gen0);
    assert!(!storage.contains(e1_gen0));

    storage.insert(e1_gen1, TestComponent { x: 10.0, y: 20.0 });
    assert!(!storage.contains(e1_gen0));
    assert!(storage.contains(e1_gen1));
}

#[test]
fn test_soa_storage_rapid_creation_destruction() {
    let mut storage = SoAStorage::<TestComponent>::new();

    for i in 0..100 {
        let entity = Entity::new(i, 0);
        storage.insert(entity, TestComponent { x: i as f32, y: i as f32 * 2.0 });
    }
    assert_eq!(storage.len(), 100);

    for i in (1..100).step_by(2) {
        let entity = Entity::new(i, 0);
        storage.remove(entity);
    }
    assert_eq!(storage.len(), 50);

    for i in (0..100).step_by(2) {
        let entity = Entity::new(i, 0);
        assert!(storage.contains(entity));
        assert_eq!(storage.get(entity).unwrap().x, i as f32);
    }
}

#[test]
fn test_soa_storage_large_entity_count() {
    let mut storage = SoAStorage::<TestComponent>::with_capacity(10000);

    for i in 0..10000 {
        let entity = Entity::new(i as u64, 0);
        storage.insert(entity, TestComponent { x: i as f32, y: i as f32 * 2.0 });
    }
    assert_eq!(storage.len(), 10000);

    let entity = Entity::new(5555, 0);
    assert!(storage.contains(entity));
    assert_eq!(storage.get(entity).unwrap().x, 5555.0);

    storage.clear();
    assert_eq!(storage.len(), 0);
}

#[test]
fn test_soa_storage_components_slice() {
    let mut storage = SoAStorage::<TestComponent>::new();

    storage.insert(Entity::new(1, 0), TestComponent { x: 1.0, y: 2.0 });
    storage.insert(Entity::new(2, 0), TestComponent { x: 3.0, y: 4.0 });
    storage.insert(Entity::new(3, 0), TestComponent { x: 5.0, y: 6.0 });

    let components = storage.components();
    assert_eq!(components.len(), 3);

    let sum_x: f32 = components.iter().map(|c| c.x).sum();
    assert_eq!(sum_x, 9.0);
}

#[test]
fn test_soa_storage_entities_iter() {
    let mut storage = SoAStorage::<TestComponent>::new();

    let e1 = Entity::new(1, 0);
    let e2 = Entity::new(2, 0);
    let e3 = Entity::new(3, 0);

    storage.insert(e1, TestComponent { x: 1.0, y: 2.0 });
    storage.insert(e2, TestComponent { x: 3.0, y: 4.0 });
    storage.insert(e3, TestComponent { x: 5.0, y: 6.0 });

    let entities: Vec<Entity> = storage.entities();
    assert_eq!(entities.len(), 3);
    assert!(entities.contains(&e1));
    assert!(entities.contains(&e2));
    assert!(entities.contains(&e3));
}

#[test]
fn test_soa_storage_invariants() {
    let mut storage = SoAStorage::<TestComponent>::new();

    assert!(storage.check_invariants().is_ok());

    for i in 0..10 {
        let entity = Entity::new(i, 0);
        storage.insert(entity, TestComponent { x: i as f32, y: i as f32 * 2.0 });
        assert!(
            storage.check_invariants().is_ok(),
            "Invariants violated after inserting entity {}",
            i
        );
    }

    for i in (0..10).step_by(2) {
        let entity = Entity::new(i, 0);
        storage.remove(entity);
        assert!(
            storage.check_invariants().is_ok(),
            "Invariants violated after removing entity {}",
            i
        );
    }

    for i in (1..10).step_by(2) {
        let entity = Entity::new(i, 0);
        storage.insert(entity, TestComponent { x: 100.0, y: 200.0 });
        assert!(
            storage.check_invariants().is_ok(),
            "Invariants violated after updating entity {}",
            i
        );
    }

    storage.clear();
    assert!(storage.check_invariants().is_ok());
    assert_eq!(storage.len(), 0);
}

// The dense storage removes by moving the last component into the hole.
#[test]
fn test_soa_swap_remove_moves_last_into_hole() {
    let mut storage = SoAStorage::<TestComponent>::new();
    let e1 = Entity::new(1, 0);
    let e2 = Entity::new(2, 0);
    let e3 = Entity::new(3, 0);
    storage.insert(e1, TestComponent { x: 1.0, y: 1.0 });
    storage.insert(e2, TestComponent { x: 2.0, y: 2.0 });
    storage.insert(e3, TestComponent { x: 3.0, y: 3.0 });

    assert_eq!(storage.get_index(e2), Some(1));
    assert_eq!(storage.remove(e2), Some(TestComponent { x: 2.0, y: 2.0 }));
    assert_eq!(storage.entities(), vec![e1, e3]);
    assert_eq!(storage.components()[1], TestComponent { x: 3.0, y: 3.0 });
    assert_eq!(storage.get_index(e3), Some(1));
    assert_eq!(storage.get_index(e2), None);
    assert_eq!(storage.remove(e2), None);
}

// Components and entities keep one order; bulk updates reach lookups.
#[test]
fn test_soa_components_mut_updates_lookups() {
    let mut storage = SoAStorage::<TestComponent>::new();
    let e1 = Entity::new(7, 0);
    let e2 = Entity::new(8, 3);
    storage.insert(e1, TestComponent { x: 1.0, y: 0.0 });
    storage.insert(e2, TestComponent { x: 2.0, y: 0.0 });
    for c in storage.components_mut().iter_mut() {
        c.y = c.x * 10.0;
    }
    assert_eq!(storage.get(e1).unwrap().y, 10.0);
    assert_eq!(storage.get(e2).unwrap().y, 20.0);
    assert!(storage.check_invariants().is_ok());
}

// Removing a component that was just inserted restores the storage.
#[test]
fn test_remove_undoes_insert() {
    let mut hm = HashMapStorage::<TestComponent>::default();
    let mut soa = SoAStorage::<TestComponent>::default();
    let keep = Entity::new(1, 0);
    let e = Entity::new(2, 0);
    hm.insert(keep, TestComponent { x: 1.0, y: 1.0 });
    soa.insert(keep, TestComponent { x: 1.0, y: 1.0 });
    hm.insert(e, TestComponent { x: 5.0, y: 5.0 });
    soa.insert(e, TestComponent { x: 5.0, y: 5.0 });
    assert_eq!(hm.get(e), Some(&TestComponent { x: 5.0, y: 5.0 }));
    assert_eq!(soa.get(e), Some(&TestComponent { x: 5.0, y: 5.0 }));
    hm.remove(e);
    soa.remove(e);
    assert!(!hm.contains(e) && !soa.contains(e));
    assert_eq!(hm.get(keep), Some(&TestComponent { x: 1.0, y: 1.0 }));
    assert_eq!(soa.len(), 1);
    assert_eq!(soa.entities(), vec![keep]);
}

#[test]
fn test_hashmap_storage_get_mut_and_clear() {
    let mut storage = HashMapStorage::<TestComponent>::new();
    let e = Entity::new(4, 2);
    assert!(storage.get_mut(e).is_none());
    storage.insert(e, TestComponent { x: 1.0, y: 2.0 });
    storage.get_mut(e).unwrap().x = 9.0;
    assert_eq!(storage.get(e).unwrap().x, 9.0);
    assert_eq!(storage.remove(Entity::new(4, 3)), None);
    storage.clear();
    assert!(!storage.contains(e));
}

// Three-column storage keeps one row per entity across three arrays.
#[test]
fn test_column_storage_rows_and_columns() {
    let mut cols = ColumnStorage::<i64>::new();
    let a = Entity::new(1, 0);
    let b = Entity::new(2, 0);
    let c = Entity::new(3, 0);
    cols.insert(a, (1, 2, 3));
    cols.insert(b, (4, 5, 6));
    cols.insert(c, (7, 8, 9));
    assert_eq!(cols.len(), 3);
    assert_eq!(cols.get(b), Some((4, 5, 6)));

    // Replacing keeps the dense index.
    cols.insert(a, (10, 20, 30));
    assert_eq!(cols.get_index(a), Some(0));
    let (xs, ys, zs) = cols.columns();
    assert_eq!(xs, &[10, 4, 7]);
    assert_eq!(ys, &[20, 5, 8]);
    assert_eq!(zs, &[30, 6, 9]);

    // Removal moves the last row into the hole.
    assert_eq!(cols.remove(a), Some((10, 20, 30)));
    assert_eq!(cols.entities(), vec![c, b]);
    assert_eq!(cols.columns().0, &[7, 4]);
    assert_eq!(cols.remove(a), None);

    {
        let (xs, _ys, zs) = cols.columns_mut();
        xs[0] = -7;
        zs[1] = -6;
    }
    assert_eq!(cols.get(c), Some((-7, 8, 9)));
    assert_eq!(cols.get(b), Some((4, 5, -6)));
    assert!(cols.contains(b) && !cols.contains(a));

    cols.clear();
    assert!(cols.is_empty());
    assert_eq!(cols.get(b), None);
    let empty = ColumnStorage::<u8>::with_capacity(16);
    assert_eq!(empty.len(), 0);
}

// After removals the length drops by one per stored entity removed, and
// each listed entity sits at its own dense index.
#[test]
fn test_soa_remove_length_and_index_layout() {
    let mut s = SoAStorage::<TestComponent>::new();
    for i in 0..6 {
        s.insert(Entity::new(i, 0), TestComponent { x: i as f32, y: 0.0 });
    }
    s.remove(Entity::new(1, 0));
    s.remove(Entity::new(1, 0));
    s.remove(Entity::new(4, 0));
    assert_eq!(s.len(), 4);
    for (i, e) in s.entities().iter().enumerate() {
        assert_eq!(s.get_index(*e), Some(i));
    }
    for i in 0..6 {
        let e = Entity::new(i, 0);
        assert_eq!(s.get_index(e).is_some(), s.contains(e));
    }
    let mut cols = ColumnStorage::<u32>::new();
    cols.insert(Entity::new(1, 0), (1, 1, 1));
    cols.insert(Entity::new(2, 0), (2, 2, 2));
    cols.remove(Entity::new(1, 0));
    assert_eq!(cols.len(), 1);
    assert_eq!(cols.get_index(Entity::new(2, 0)), Some(0));
}
