//! The writer pool's growth policy: the pool starts at its minimum, gains a
//! writer each time the count of registered connections reaches a multiple
//! of a fixed step, stops at its maximum, and never shrinks.

use vstd::prelude::*;

verus! {

/// The standard step: one more writer for every fifth registration.
pub const CONNECTIONS_PER_WRITER: u32 = 5;

/// When the pool grows, and between which sizes.
#[derive(Clone, Copy, Debug, PartialEq, Eq, Structural)]
pub struct GrowthPolicy {
    /// A writer is due when the count of registrations is a multiple of this.
    pub connections_per_writer: u32,
    /// The writers that run before any client has registered.
    pub min_writers: u32,
    /// The size at which the pool stops growing.
    pub max_writers: u32,
}

impl GrowthPolicy {
    /// The step is positive and the minimum does not exceed the maximum.
    pub open spec fn wf(&self) -> bool {
        self.connections_per_writer > 0 && self.min_writers <= self.max_writers
    }

    /// The standard policy: no writer to begin with, one more for every fifth
    /// registration, no upper limit short of the counter's range.
    pub fn standard() -> (policy: Self)
        ensures
            policy.wf(),
            policy == (GrowthPolicy {
                connections_per_writer: CONNECTIONS_PER_WRITER,
                min_writers: 0,
                max_writers: u32::MAX,
            }),
    {
        GrowthPolicy {
            connections_per_writer: CONNECTIONS_PER_WRITER,
            min_writers: 0,
            max_writers: u32::MAX,
        }
    }

    /// Whether the policy is well formed.
    pub fn is_valid(&self) -> (valid: bool)
        ensures
            valid == self.wf(),
    {
        self.connections_per_writer > 0 && self.min_writers <= self.max_writers
    }
}

/// The count after one more registration; it wraps at the end of its range.
pub open spec fn next_total(total: u32) -> u32 {
    if total == u32::MAX {
        0
    } else {
        (total + 1) as u32
    }
}

/// Whether a count of registrations, taken after the latest one, calls for a
/// new writer in a pool of `writers`.
pub open spec fn writer_due_at(policy: GrowthPolicy, total: u32, writers: u32) -> bool {
    total % policy.connections_per_writer == 0 && writers < policy.max_writers
}

/// The size of the writer pool and the count of registered connections.
#[derive(Debug)]
pub struct WriterPool {
    pub policy: GrowthPolicy,
    pub connections: u32,
    pub writers: u32,
}

impl WriterPool {
    /// The policy is well formed and the pool's size is within its limits.
    pub open spec fn wf(&self) -> bool {
        &&& self.policy.wf()
        &&& self.policy.min_writers <= self.writers <= self.policy.max_writers
    }

    /// A pool at its minimum size, with no connection counted. The caller
    /// starts `min_writers` writers.
    pub fn new(policy: GrowthPolicy) -> (pool: Self)
        requires
            policy.wf(),
        ensures
            pool.wf(),
            pool.policy == policy,
            pool.connections == 0,
            pool.writers == policy.min_writers,
    {
        WriterPool { policy, connections: 0, writers: policy.min_writers }
    }

    /// The number of registrations so far.
    pub fn connections(&self) -> (total: u32)
        ensures
            total == self.connections,
    {
        self.connections
    }

    /// The number of writers that the pool has called for.
    pub fn writers(&self) -> (writers: u32)
        ensures
            writers == self.writers,
    {
        self.writers
    }

    /// Counts one registration and says whether the caller is to start one
    /// more writer: the count after this registration is a multiple of the
    /// step and the pool is below its maximum. The pool never shrinks.
    pub fn record_connection(&mut self) -> (spawn: bool)
        requires
            old(self).wf(),
        ensures
            final(self).wf(),
            final(self).policy == old(self).policy,
            final(self).connections == next_total(old(self).connections),
            spawn == writer_due_at(old(self).policy, final(self).connections, old(self).writers),
            final(self).writers == old(self).writers + if spawn {
                1int
            } else {
                0int
            },
    {
        self.connections = if self.connections == u32::MAX {
            0
        } else {
            self.connections + 1
        };
        let spawn: bool = self.connections % self.policy.connections_per_writer == 0
            && self.writers < self.policy.max_writers;
        if spawn {
            self.writers = self.writers + 1;
        }
        spawn
    }
}

} // verus!
