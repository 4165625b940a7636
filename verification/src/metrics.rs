//! Telemetry counters for world partition streaming.
use vstd::prelude::*;
use crate::text::{decimal, push_decimal};

verus! {

/// Telemetry counters for world partition streaming.
#[derive(Debug, Clone, Copy, PartialEq, Eq, Structural)]
pub struct WorldPartitionMetrics {
    pub frames: u64,
    pub chunks_loaded: u64,
    pub chunks_evicted: u64,
    pub chunks_failed: u64,
    pub pending_load_tasks: usize,
    /// Duration of the last tick's commit, in nanoseconds.
    pub last_commit_ns: u64,
}

/// All counters at zero.
pub open spec fn zero_metrics() -> WorldPartitionMetrics {
    WorldPartitionMetrics {
        frames: 0,
        chunks_loaded: 0,
        chunks_evicted: 0,
        chunks_failed: 0,
        pending_load_tasks: 0,
        last_commit_ns: 0,
    }
}

/// The one-line summary of a metrics snapshot, with the last commit time
/// shown as `commit_ms`.
pub open spec fn summary_text(m: WorldPartitionMetrics, commit_ms: Seq<char>) -> Seq<char> {
    "Frames: "@ + decimal(m.frames as nat) + " | Loaded: "@ + decimal(m.chunks_loaded as nat)
        + " | Evicted: "@ + decimal(m.chunks_evicted as nat) + " | Failed: "@ + decimal(
        m.chunks_failed as nat,
    ) + " | Pending: "@ + decimal(m.pending_load_tasks as nat) + " | Last Commit: "@ + commit_ms + "ms"@
}

impl Default for WorldPartitionMetrics {
    fn default() -> (m: Self)
        ensures
            m == zero_metrics(),
    {
        WorldPartitionMetrics {
            frames: 0,
            chunks_loaded: 0,
            chunks_evicted: 0,
            chunks_failed: 0,
            pending_load_tasks: 0,
            last_commit_ns: 0,
        }
    }
}

impl WorldPartitionMetrics {
    /// Format metrics as a human-readable string. `last_commit_ms` is the
    /// last commit time in milliseconds with two decimals (`{:.2}` of
    /// `last_commit_ns / 10^6` as an `f64`), which the caller formats since
    /// it is floating-point arithmetic.
    pub fn format_summary(&self, last_commit_ms: &str) -> (s: String)
        ensures
            s@ == summary_text(*self, last_commit_ms@),
    {
        let mut s = String::from_str("Frames: ");
        push_decimal(&mut s, self.frames);
        s.append(" | Loaded: ");
        push_decimal(&mut s, self.chunks_loaded);
        s.append(" | Evicted: ");
        push_decimal(&mut s, self.chunks_evicted);
        s.append(" | Failed: ");
        push_decimal(&mut s, self.chunks_failed);
        s.append(" | Pending: ");
        push_decimal(&mut s, self.pending_load_tasks as u64);
        s.append(" | Last Commit: ");
        s.append(last_commit_ms);
        s.append("ms");
        proof {
            assert(s@ =~= summary_text(*self, last_commit_ms@));
        }
        s
    }

    /// Reset all metrics to zero.
    pub fn reset(&mut self)
        ensures
            *final(self) == zero_metrics(),
    {
        self.frames = 0;
        self.chunks_loaded = 0;
        self.chunks_evicted = 0;
        self.chunks_failed = 0;
        self.pending_load_tasks = 0;
        self.last_commit_ns = 0;
    }
}

} // verus!
