//! Buffer pooling for reducing allocation churn
//!
//! A pool keeps HashMap buffers that were handed back for reuse, up to a
//! configured number. Acquiring takes a kept buffer (a hit) and clears it,
//! or allocates a fresh one (a miss); releasing keeps the buffer unless the
//! pool is full, in which case it is dropped.

use std::collections::HashMap;
use vstd::prelude::*;

verus! {

/// Statistics for monitoring pool performance
#[derive(Debug, Clone, Copy)]
pub struct PoolStats {
    /// Number of times a buffer was successfully borrowed from the pool
    pub hits: usize,
    /// Number of times a new buffer had to be allocated
    pub misses: usize,
    /// Number of times the pool was resized
    pub resize_count: usize,
    /// Current number of buffers in the pool
    pub pool_size: usize,
    /// Peak number of buffers ever kept in the pool
    pub peak_size: usize,
}

impl Default for PoolStats {
    fn default() -> (s: Self)
        ensures
            s.hits == 0,
            s.misses == 0,
            s.resize_count == 0,
            s.pool_size == 0,
            s.peak_size == 0,
    {
        PoolStats { hits: 0, misses: 0, resize_count: 0, pool_size: 0, peak_size: 0 }
    }
}

/// A buffer taken from a pool; hand it back with `HashMapPool::release`.
pub struct HashMapGuard<K, V> {
    buffer: HashMap<K, V>,
}

impl<K, V> HashMapGuard<K, V> {
    /// The entries of the buffer.
    pub closed spec fn contents(&self) -> Map<K, V> {
        self.buffer@
    }

    /// Get a reference to the underlying HashMap
    pub fn as_hashmap(&self) -> (m: &HashMap<K, V>)
        ensures
            m@ == self.contents(),
    {
        &self.buffer
    }

    /// Get a mutable reference to the underlying HashMap
    pub fn as_hashmap_mut(&mut self) -> (m: &mut HashMap<K, V>)
        ensures
            m@ == old(self).contents(),
            final(self).contents() == final(m)@,
    {
        &mut self.buffer
    }

    /// Give up the guard and keep the buffer.
    pub fn into_hashmap(self) -> (m: HashMap<K, V>)
        ensures
            m@ == self.contents(),
    {
        self.buffer
    }
}

/// A pool of reusable HashMap buffers.
pub struct HashMapPool<K, V> {
    free: Vec<HashMap<K, V>>,
    initial_capacity: usize,
    max_pool_size: usize,
    stats: PoolStats,
}

impl<K, V> HashMapPool<K, V> {
    /// Number of buffers kept for reuse.
    pub closed spec fn free_count(&self) -> nat {
        self.free@.len()
    }

    /// The most buffers the pool keeps.
    pub closed spec fn limit(&self) -> nat {
        self.max_pool_size as nat
    }

    /// The capacity a freshly allocated buffer is made with.
    pub closed spec fn spec_initial_capacity(&self) -> nat {
        self.initial_capacity as nat
    }

    /// The statistics gathered so far.
    pub closed spec fn spec_stats(&self) -> PoolStats {
        self.stats
    }

    /// The pool never keeps more buffers than its limit, the recorded size
    /// is the number of kept buffers, and the peak is at least that.
    pub closed spec fn wf(&self) -> bool {
        &&& self.free@.len() <= self.max_pool_size
        &&& self.stats.pool_size == self.free@.len()
        &&& self.stats.pool_size <= self.stats.peak_size
    }

    /// Create a new pool with the default limits: buffers made with capacity
    /// 64, at most 8 kept
    pub fn new() -> (p: Self)
        ensures
            p.wf(),
            p.free_count() == 0,
            p.limit() == 8,
            p.spec_initial_capacity() == 64,
            p.spec_stats() == (PoolStats { hits: 0, misses: 0, resize_count: 0, pool_size: 0, peak_size: 0 }),
    {
        Self::with_limits(64, 8)
    }

    /// Create a new pool whose fresh buffers are made with
    /// `initial_capacity` and which keeps at most `max_pool_size` buffers
    pub fn with_limits(initial_capacity: usize, max_pool_size: usize) -> (p: Self)
        ensures
            p.wf(),
            p.free_count() == 0,
            p.limit() == max_pool_size,
            p.spec_initial_capacity() == initial_capacity,
            p.spec_stats() == (PoolStats { hits: 0, misses: 0, resize_count: 0, pool_size: 0, peak_size: 0 }),
    {
        HashMapPool {
            free: Vec::new(),
            initial_capacity,
            max_pool_size,
            stats: PoolStats::default(),
        }
    }

    /// Acquire a buffer from the pool
    ///
    /// Takes a kept buffer and clears it when there is one (a hit), or
    /// allocates a new buffer (a miss). The buffer comes back empty.
    pub fn acquire(&mut self) -> (g: HashMapGuard<K, V>)
        requires
            old(self).wf(),
            old(self).spec_stats().hits < usize::MAX,
            old(self).spec_stats().misses < usize::MAX,
        ensures
            final(self).wf(),
            g.contents() == Map::<K, V>::empty(),
            final(self).limit() == old(self).limit(),
            final(self).spec_initial_capacity() == old(self).spec_initial_capacity(),
            old(self).free_count() > 0 ==> {
                &&& final(self).free_count() == old(self).free_count() - 1
                &&& final(self).spec_stats().hits == old(self).spec_stats().hits + 1
                &&& final(self).spec_stats().misses == old(self).spec_stats().misses
            },
            old(self).free_count() == 0 ==> {
                &&& final(self).free_count() == 0
                &&& final(self).spec_stats().hits == old(self).spec_stats().hits
                &&& final(self).spec_stats().misses == old(self).spec_stats().misses + 1
            },
            final(self).spec_stats().pool_size == final(self).free_count(),
            final(self).spec_stats().peak_size == old(self).spec_stats().peak_size,
            final(self).spec_stats().resize_count == old(self).spec_stats().resize_count,
    {
        let buffer = match self.free.pop() {
            Some(mut b) => {
                b.clear();
                self.stats.hits = self.stats.hits + 1;
                b
            },
            None => {
                self.stats.misses = self.stats.misses + 1;
                HashMap::with_capacity(self.initial_capacity)
            },
        };
        self.stats.pool_size = self.free.len();
        HashMapGuard { buffer }
    }

    /// Hand a buffer back to the pool
    ///
    /// The buffer is kept for reuse when the pool holds fewer than its
    /// limit, and dropped otherwise. Returns whether it was kept.
    pub fn release(&mut self, guard: HashMapGuard<K, V>) -> (kept: bool)
        requires
            old(self).wf(),
        ensures
            final(self).wf(),
            kept == (old(self).free_count() < old(self).limit()),
            kept ==> final(self).free_count() == old(self).free_count() + 1,
            !kept ==> final(self).free_count() == old(self).free_count(),
            final(self).limit() == old(self).limit(),
            final(self).spec_initial_capacity() == old(self).spec_initial_capacity(),
            final(self).spec_stats().hits == old(self).spec_stats().hits,
            final(self).spec_stats().misses == old(self).spec_stats().misses,
            final(self).spec_stats().resize_count == old(self).spec_stats().resize_count,
            final(self).spec_stats().pool_size == final(self).free_count(),
            final(self).spec_stats().peak_size == if final(self).free_count() > old(self).spec_stats().peak_size {
                final(self).free_count()
            } else {
                old(self).spec_stats().peak_size as nat
            },
    {
        if self.free.len() < self.max_pool_size {
            self.free.push(guard.buffer);
            self.stats.pool_size = self.free.len();
            if self.stats.pool_size > self.stats.peak_size {
                self.stats.peak_size = self.stats.pool_size;
            }
            true
        } else {
            false
        }
    }

    /// Get current pool statistics
    pub fn stats(&self) -> (s: PoolStats)
        ensures
            s == self.spec_stats(),
    {
        self.stats
    }

    /// Drop every kept buffer (useful for shutdown)
    pub fn clear(&mut self)
        requires
            old(self).wf(),
        ensures
            final(self).wf(),
            final(self).free_count() == 0,
            final(self).limit() == old(self).limit(),
            final(self).spec_initial_capacity() == old(self).spec_initial_capacity(),
            final(self).spec_stats() == (PoolStats { pool_size: 0, ..old(self).spec_stats() }),
    {
        self.free.clear();
        self.stats.pool_size = 0;
    }

    /// Get the current number of buffers in the pool
    pub fn len(&self) -> (n: usize)
        ensures
            n == self.free_count(),
    {
        self.free.len()
    }

    /// Check if the pool is empty
    pub fn is_empty(&self) -> (b: bool)
        ensures
            b == (self.free_count() == 0),
    {
        self.free.len() == 0
    }

    /// The most buffers the pool keeps
    pub fn max_pool_size(&self) -> (n: usize)
        ensures
            n == self.limit(),
    {
        self.max_pool_size
    }

    /// The capacity a freshly allocated buffer is made with
    pub fn initial_capacity(&self) -> (n: usize)
        ensures
            n == self.spec_initial_capacity(),
    {
        self.initial_capacity
    }
}


impl<K, V> Default for HashMapPool<K, V> {
    fn default() -> (p: Self)
        ensures
            p.wf(),
            p.free_count() == 0,
            p.limit() == 8,
            p.spec_initial_capacity() == 64,
            p.spec_stats() == (PoolStats { hits: 0, misses: 0, resize_count: 0, pool_size: 0, peak_size: 0 }),
    {
        Self::new()
    }
}

/// A well-formed pool keeps no more buffers than its limit, records the
/// number of kept buffers as its size, and its peak is at least that size.
pub proof fn law_pool_bounded<K, V>(p: HashMapPool<K, V>)
    requires
        p.wf(),
    ensures
        p.free_count() <= p.limit(),
        p.spec_stats().pool_size == p.free_count(),
        p.spec_stats().pool_size <= p.spec_stats().peak_size,
{
}

} // verus!
