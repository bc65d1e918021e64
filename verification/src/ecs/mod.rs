//! Entity Component System (ECS) core: entities, component storage,
//! systems, the world and the staged scheduler.

/// Three-column dense component storage
pub mod columns;
/// Components and their storages
pub mod component;
/// Entity handles
pub mod entity;
/// Systems and the system executor
pub mod system;
/// The world: entity lifecycles
pub mod world;

/// System scheduler
pub mod scheduler;

pub use columns::ColumnStorage;
pub use component::{Component, HashMapStorage, SoAStorage};
pub use entity::{Entity, EntityId};
pub use system::{System, SystemExecutor};
pub use world::World;
