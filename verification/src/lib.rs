//! Entity Component System core for a physics engine, with verified
//! entity bookkeeping, component storages, system scheduling, plugin
//! dependency ordering, SIMD feature dispatch and buffer pooling.

/// Entity Component System implementation
pub mod ecs;

pub use ecs::{Entity, World};

/// Plugin system: dependency ordering and registry bookkeeping
pub mod plugins;

/// SIMD feature detection and backend selection
pub mod simd;

/// Memory pooling for reducing allocation churn
pub mod pool;
