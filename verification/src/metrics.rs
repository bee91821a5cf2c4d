//! Request counters and their Prometheus text.

use crate::text::{decimal, push_decimal};
use std::sync::atomic::{AtomicU64, Ordering};
use vstd::prelude::*;
use vstd::string::StringExecFns;

verus! {

/// Counters of served blobs, uploads, action-result hits and misses, and
/// commits. They are shared between requests; each increment wraps at
/// `u64::MAX`.
pub struct Metrics {
    blob_hits: AtomicU64,
    blob_uploads: AtomicU64,
    action_hits: AtomicU64,
    action_misses: AtomicU64,
    action_commits: AtomicU64,
}

/// The counter values at one moment.
#[derive(Clone, Copy, Debug, PartialEq, Eq, Structural)]
pub struct MetricsSnapshot {
    pub blob_hits: u64,
    pub blob_uploads: u64,
    pub action_hits: u64,
    pub action_misses: u64,
    pub action_commits: u64,
}

impl Metrics {
    /// All counters at zero.
    pub fn new() -> (r: Metrics) {
        Metrics {
            blob_hits: AtomicU64::new(0),
            blob_uploads: AtomicU64::new(0),
            action_hits: AtomicU64::new(0),
            action_misses: AtomicU64::new(0),
            action_commits: AtomicU64::new(0),
        }
    }

    /// Counts a served blob.
    pub fn record_blob_hit(&self) {
        self.blob_hits.fetch_add(1, Ordering::Relaxed);
    }

    /// Counts a stored upload.
    pub fn record_blob_upload(&self) {
        self.blob_uploads.fetch_add(1, Ordering::Relaxed);
    }

    /// Counts an action-result hit.
    pub fn record_action_hit(&self) {
        self.action_hits.fetch_add(1, Ordering::Relaxed);
    }

    /// Counts an action-result miss.
    pub fn record_action_miss(&self) {
        self.action_misses.fetch_add(1, Ordering::Relaxed);
    }

    /// Counts an action-result commit.
    pub fn record_action_commit(&self) {
        self.action_commits.fetch_add(1, Ordering::Relaxed);
    }

    /// The current counter values.
    pub fn snapshot(&self) -> (r: MetricsSnapshot) {
        MetricsSnapshot {
            blob_hits: self.blob_hits.load(Ordering::Relaxed),
            blob_uploads: self.blob_uploads.load(Ordering::Relaxed),
            action_hits: self.action_hits.load(Ordering::Relaxed),
            action_misses: self.action_misses.load(Ordering::Relaxed),
            action_commits: self.action_commits.load(Ordering::Relaxed),
        }
    }
}

/// One counter in the Prometheus text format: its type line and its value
/// line.
pub open spec fn counter_text(name: Seq<char>, value: u64) -> Seq<char> {
    "# TYPE "@ + name + " counter\n"@ + name + " "@ + decimal(value as nat) + "\n"@
}

/// The counters in the Prometheus text format, in a fixed order.
pub open spec fn metrics_text_of(s: MetricsSnapshot) -> Seq<char> {
    counter_text("mise_cache_blob_hits_total"@, s.blob_hits) + counter_text(
        "mise_cache_blob_uploads_total"@,
        s.blob_uploads,
    ) + counter_text("mise_cache_action_hits_total"@, s.action_hits) + counter_text(
        "mise_cache_action_misses_total"@,
        s.action_misses,
    ) + counter_text("mise_cache_action_commits_total"@, s.action_commits)
}

fn push_counter(out: &mut String, name: &str, value: u64)
    ensures
        final(out)@ == old(out)@ + counter_text(name@, value),
{
    out.append("# TYPE ");
    out.append(name);
    out.append(" counter\n");
    out.append(name);
    out.append(" ");
    push_decimal(out, value);
    out.append("\n");
    assert(final(out)@ =~= old(out)@ + counter_text(name@, value));
}

/// The Prometheus text of the counters (see `metrics_text_of`).
pub fn metrics_text(s: &MetricsSnapshot) -> (r: String)
    ensures
        r@ == metrics_text_of(*s),
{
    let mut out = String::new();
    push_counter(&mut out, "mise_cache_blob_hits_total", s.blob_hits);
    push_counter(&mut out, "mise_cache_blob_uploads_total", s.blob_uploads);
    push_counter(&mut out, "mise_cache_action_hits_total", s.action_hits);
    push_counter(&mut out, "mise_cache_action_misses_total", s.action_misses);
    push_counter(&mut out, "mise_cache_action_commits_total", s.action_commits);
    assert(out@ =~= metrics_text_of(*s));
    out
}

} // verus!
