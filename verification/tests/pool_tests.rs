use physics_engine::ecs::Entity;
use physics_engine::pool::{HashMapPool, PoolStats};

#[test]
fn test_hashmap_pool_creation() {
    let pool: HashMapPool<Entity, i32> = HashMapPool::new();
    assert_eq!(pool.len(), 0);
    assert!(pool.is_empty());
    assert_eq!(pool.max_pool_size(), 8);
    assert_eq!(pool.initial_capacity(), 64);
}

#[test]
fn test_hashmap_pool_acquire_and_return() {
    let mut pool: HashMapPool<Entity, i32> = HashMapPool::new();

    let mut guard = pool.acquire();
    guard.as_hashmap_mut().insert(Entity::new(1, 0), 42);
    assert_eq!(guard.as_hashmap().len(), 1);
    assert!(pool.release(guard));

    assert_eq!(pool.len(), 1);

    let stats = pool.stats();
    assert_eq!(stats.hits, 0);
    assert_eq!(stats.misses, 1);
}

#[test]
fn test_hashmap_pool_reuse() {
    let mut pool: HashMapPool<Entity, i32> = HashMapPool::new();

    let mut guard = pool.acquire();
    guard.as_hashmap_mut().insert(Entity::new(1, 0), 42);
    pool.release(guard);

    let guard = pool.acquire();
    assert_eq!(guard.as_hashmap().len(), 0);
    pool.release(guard);

    let stats = pool.stats();
    assert_eq!(stats.hits, 1);
    assert_eq!(stats.misses, 1);
}

#[test]
fn test_hashmap_pool_max_size() {
    let mut pool: HashMapPool<Entity, i32> = HashMapPool::with_limits(32, 2);

    let g1 = pool.acquire();
    let g2 = pool.acquire();
    let g3 = pool.acquire();
    assert!(pool.release(g1));
    assert!(pool.release(g2));
    assert!(!pool.release(g3));

    assert_eq!(pool.len(), 2);
}

#[test]
fn test_hashmap_pool_clear() {
    let mut pool: HashMapPool<Entity, i32> = HashMapPool::new();

    let g1 = pool.acquire();
    let g2 = pool.acquire();
    pool.release(g1);
    pool.release(g2);

    assert_eq!(pool.len(), 2);

    pool.clear();
    assert_eq!(pool.len(), 0);
    assert!(pool.is_empty());
    assert_eq!(pool.stats().pool_size, 0);
    assert_eq!(pool.stats().peak_size, 2);
}

#[test]
fn test_pool_stats_tracking() {
    let mut pool: HashMapPool<usize, i32> = HashMapPool::new();

    let g = pool.acquire();
    pool.release(g);
    let g = pool.acquire();
    pool.release(g);
    let g = pool.acquire();
    pool.release(g);

    let stats = pool.stats();
    assert_eq!(stats.hits, 2);
    assert_eq!(stats.misses, 1);
    assert_eq!(stats.pool_size, 1);
    assert_eq!(stats.peak_size, 1);
}

#[test]
fn test_guard_deref() {
    let mut pool: HashMapPool<usize, i32> = HashMapPool::new();
    let mut guard = pool.acquire();

    guard.as_hashmap_mut().insert(1, 42);
    assert_eq!(guard.as_hashmap().get(&1), Some(&42));

    if let Some(v) = guard.as_hashmap_mut().get_mut(&1) {
        *v = 100;
    }
    assert_eq!(guard.as_hashmap().get(&1), Some(&100));
    let map = guard.into_hashmap();
    assert_eq!(map.get(&1), Some(&100));
}

#[test]
fn test_pool_stats_default() {
    let s = PoolStats::default();
    assert_eq!((s.hits, s.misses, s.resize_count, s.pool_size, s.peak_size), (0, 0, 0, 0, 0));
}

// A pool with no room keeps nothing; every acquire is then a miss.
#[test]
fn test_zero_sized_pool() {
    let mut pool: HashMapPool<u8, u8> = HashMapPool::default();
    let mut tiny: HashMapPool<u8, u8> = HashMapPool::with_limits(1, 0);
    let g = tiny.acquire();
    assert!(!tiny.release(g));
    let g = tiny.acquire();
    assert!(!tiny.release(g));
    assert_eq!(tiny.stats().misses, 2);
    assert_eq!(tiny.stats().hits, 0);
    assert_eq!(tiny.stats().peak_size, 0);
    let g = pool.acquire();
    assert!(pool.release(g));
}
