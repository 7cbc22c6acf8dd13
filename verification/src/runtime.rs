//! Performance tiers and the tuning values derived from a machine's CPU count
//! and memory.
use vstd::prelude::*;

use crate::text::{lowercase_of, str_eq, to_lowercase};

verus! {

pub const ONE_GIB: u64 = 1073741824;
pub const LOW_CORE_THRESHOLD: usize = 4;
pub const LOW_MEMORY_BYTES: u64 = 4294967296;
pub const HIGH_CORE_THRESHOLD: usize = 8;
pub const HIGH_MEMORY_BYTES: u64 = 8589934592;
pub const MAX_WALK_THREADS: usize = 16;
pub const MAX_MOVE_CONCURRENCY: usize = 32;
pub const MIN_PROGRESS_INTERVAL: usize = 20;
pub const TARGET_PROGRESS_EVENTS: usize = 200;
/// CPU count assumed when the platform cannot report one.
pub const FALLBACK_CPU_THREADS: usize = 4;

#[derive(Debug, Clone, Copy, PartialEq, Eq, Structural)]
pub enum PerformanceTier {
    Low,
    Standard,
    High,
}

/// Tuning values for scanning, grouping, moving and undo logging.
#[derive(Debug, Clone)]
pub struct RuntimeProfile {
    pub cpu_threads: usize,
    pub available_memory_bytes: u64,
    pub tier: PerformanceTier,
    pub walk_threads: usize,
    pub metadata_threads: usize,
    pub move_concurrency: usize,
    pub progress_interval: usize,
    pub undo_flush_batch: usize,
}

/// Order of the tiers: Low < Standard < High.
pub open spec fn tier_rank(tier: PerformanceTier) -> int {
    match tier {
        PerformanceTier::Low => 0,
        PerformanceTier::Standard => 1,
        PerformanceTier::High => 2,
    }
}

pub open spec fn min_usize(a: usize, b: usize) -> usize {
    if a <= b {
        a
    } else {
        b
    }
}

pub open spec fn clamp_usize(x: usize, lo: usize, hi: usize) -> usize {
    if x < lo {
        lo
    } else if x > hi {
        hi
    } else {
        x
    }
}

/// The memory figure used for tiering: the reported available memory when it
/// is at least the low-memory threshold, else the free memory when that is,
/// else half the total when available memory is reported as zero (some
/// platforms report nothing), else the larger of available and free.
pub open spec fn spec_memory_bytes_for_tiering(available: u64, free: u64, total: u64) -> u64 {
    if available >= LOW_MEMORY_BYTES {
        available
    } else if free >= LOW_MEMORY_BYTES {
        free
    } else if total > 0 && available == 0 {
        (total / 2) as u64
    } else if available >= free {
        available
    } else {
        free
    }
}

pub open spec fn spec_classify_tier(cpu_threads: usize, available_memory_bytes: u64) -> PerformanceTier {
    if cpu_threads < LOW_CORE_THRESHOLD || available_memory_bytes < LOW_MEMORY_BYTES {
        PerformanceTier::Low
    } else if cpu_threads >= HIGH_CORE_THRESHOLD && available_memory_bytes >= HIGH_MEMORY_BYTES {
        PerformanceTier::High
    } else {
        PerformanceTier::Standard
    }
}

pub open spec fn spec_build_profile(
    cpu_threads: usize,
    available_memory_bytes: u64,
    tier: PerformanceTier,
) -> RuntimeProfile {
    match tier {
        PerformanceTier::Low => RuntimeProfile {
            cpu_threads,
            available_memory_bytes,
            tier,
            walk_threads: 2,
            metadata_threads: min_usize(cpu_threads, 4),
            move_concurrency: 1,
            progress_interval: 5000,
            undo_flush_batch: 500,
        },
        PerformanceTier::Standard => RuntimeProfile {
            cpu_threads,
            available_memory_bytes,
            tier,
            walk_threads: min_usize(cpu_threads, 8),
            metadata_threads: cpu_threads,
            move_concurrency: min_usize(cpu_threads, 8),
            progress_interval: 1000,
            undo_flush_batch: 2000,
        },
        PerformanceTier::High => RuntimeProfile {
            cpu_threads,
            available_memory_bytes,
            tier,
            walk_threads: min_usize(cpu_threads, MAX_WALK_THREADS),
            metadata_threads: cpu_threads,
            move_concurrency: clamp_usize((cpu_threads / 2) as usize, 2, MAX_MOVE_CONCURRENCY),
            progress_interval: 500,
            undo_flush_batch: 5000,
        },
    }
}

pub open spec fn spec_progress_interval_for_total(progress_interval: usize, total_files: usize) -> usize {
    if total_files == 0 {
        MIN_PROGRESS_INTERVAL
    } else {
        let by_total: usize = if total_files / TARGET_PROGRESS_EVENTS >= MIN_PROGRESS_INTERVAL {
            (total_files / TARGET_PROGRESS_EVENTS) as usize
        } else {
            MIN_PROGRESS_INTERVAL
        };
        let cap: usize = if progress_interval >= MIN_PROGRESS_INTERVAL {
            progress_interval
        } else {
            MIN_PROGRESS_INTERVAL
        };
        min_usize(by_total, cap)
    }
}

/// The tier that a (lower-cased) tier override names: "low", "high", and
/// Standard for anything else.
pub open spec fn spec_tier_from_lowercase(lower: Seq<char>) -> PerformanceTier {
    if lower == "low"@ {
        PerformanceTier::Low
    } else if lower == "high"@ {
        PerformanceTier::High
    } else {
        PerformanceTier::Standard
    }
}

fn min_of(a: usize, b: usize) -> (r: usize)
    ensures
        r == min_usize(a, b),
{
    if a <= b {
        a
    } else {
        b
    }
}

/// Memory figure used for tiering, from the available, free and total RAM
/// that the platform reports.
pub fn memory_bytes_for_tiering(available: u64, free: u64, total: u64) -> (r: u64)
    ensures
        r == spec_memory_bytes_for_tiering(available, free, total),
{
    if available >= LOW_MEMORY_BYTES {
        return available;
    }
    if free >= LOW_MEMORY_BYTES {
        return free;
    }
    if total > 0 && available == 0 {
        return total / 2;
    }
    if available >= free {
        available
    } else {
        free
    }
}

/// Tier for a machine: Low under 4 CPU threads or 4 GiB, High from 8 CPU
/// threads and 8 GiB, Standard otherwise.
pub fn classify_tier(cpu_threads: usize, available_memory_bytes: u64) -> (r: PerformanceTier)
    ensures
        r == spec_classify_tier(cpu_threads, available_memory_bytes),
{
    if cpu_threads < LOW_CORE_THRESHOLD || available_memory_bytes < LOW_MEMORY_BYTES {
        PerformanceTier::Low
    } else if cpu_threads >= HIGH_CORE_THRESHOLD && available_memory_bytes >= HIGH_MEMORY_BYTES {
        PerformanceTier::High
    } else {
        PerformanceTier::Standard
    }
}

/// The tuning values of a tier.
pub fn build_profile(
    cpu_threads: usize,
    available_memory_bytes: u64,
    tier: PerformanceTier,
) -> (r: RuntimeProfile)
    ensures
        r == spec_build_profile(cpu_threads, available_memory_bytes, tier),
{
    let (walk_threads, metadata_threads, move_concurrency, progress_interval, undo_flush_batch) =
        match tier {
        PerformanceTier::Low => (2usize, min_of(cpu_threads, 4), 1usize, 5000usize, 500usize),
        PerformanceTier::Standard => (
            min_of(cpu_threads, 8),
            cpu_threads,
            min_of(cpu_threads, 8),
            1000usize,
            2000usize,
        ),
        PerformanceTier::High => {
            let half: usize = cpu_threads / 2;
            let concurrency: usize = if half < 2 {
                2
            } else if half > MAX_MOVE_CONCURRENCY {
                MAX_MOVE_CONCURRENCY
            } else {
                half
            };
            (min_of(cpu_threads, MAX_WALK_THREADS), cpu_threads, concurrency, 500usize, 5000usize)
        },
    };
    RuntimeProfile {
        cpu_threads,
        available_memory_bytes,
        tier,
        walk_threads,
        metadata_threads,
        move_concurrency,
        progress_interval,
        undo_flush_batch,
    }
}

/// The tier that a tier override names once lower-cased.
pub fn tier_from_lowercase(lower: &str) -> (r: PerformanceTier)
    ensures
        r == spec_tier_from_lowercase(lower@),
{
    if str_eq(lower, "low") {
        PerformanceTier::Low
    } else if str_eq(lower, "high") {
        PerformanceTier::High
    } else {
        PerformanceTier::Standard
    }
}

/// The tier that a tier override names, compared without regard to case.
pub fn parse_tier_override(raw: &str) -> (r: PerformanceTier)
    ensures
        r == spec_tier_from_lowercase(lowercase_of(raw@)),
{
    let lower = to_lowercase(raw);
    tier_from_lowercase(lower.as_str())
}

impl RuntimeProfile {
    /// The profile for a machine with the given CPU threads and memory.
    pub fn from_specs(cpu_threads: usize, available_memory_bytes: u64) -> (r: Self)
        ensures
            r == spec_build_profile(
                cpu_threads,
                available_memory_bytes,
                spec_classify_tier(cpu_threads, available_memory_bytes),
            ),
    {
        let tier = classify_tier(cpu_threads, available_memory_bytes);
        build_profile(cpu_threads, available_memory_bytes, tier)
    }

    /// The profile chosen at start-up: a tier override, where one is given,
    /// replaces the tier that the machine's figures would give; a missing CPU
    /// count counts as four threads.
    pub fn detect(
        tier_override: Option<&str>,
        cpu_threads: Option<usize>,
        available_memory_bytes: u64,
    ) -> (r: Self)
        ensures
            ({
                let cpu = match cpu_threads {
                    Some(n) => n,
                    None => FALLBACK_CPU_THREADS,
                };
                let tier = match tier_override {
                    Some(raw) => spec_tier_from_lowercase(lowercase_of(raw@)),
                    None => spec_classify_tier(cpu, available_memory_bytes),
                };
                r == spec_build_profile(cpu, available_memory_bytes, tier)
            }),
    {
        let cpu = match cpu_threads {
            Some(n) => n,
            None => FALLBACK_CPU_THREADS,
        };
        let tier = match tier_override {
            Some(raw) => parse_tier_override(raw),
            None => classify_tier(cpu, available_memory_bytes),
        };
        build_profile(cpu, available_memory_bytes, tier)
    }

    /// How many processed files separate two progress reports for a run of
    /// `total_files` files.
    pub fn progress_interval_for_total(&self, total_files: usize) -> (r: usize)
        ensures
            r == spec_progress_interval_for_total(self.progress_interval, total_files),
            MIN_PROGRESS_INTERVAL <= r,
            r <= MIN_PROGRESS_INTERVAL || r <= self.progress_interval,
    {
        if total_files == 0 {
            return MIN_PROGRESS_INTERVAL;
        }
        let quotient = total_files / TARGET_PROGRESS_EVENTS;
        let by_total = if quotient >= MIN_PROGRESS_INTERVAL {
            quotient
        } else {
            MIN_PROGRESS_INTERVAL
        };
        let cap = if self.progress_interval >= MIN_PROGRESS_INTERVAL {
            self.progress_interval
        } else {
            MIN_PROGRESS_INTERVAL
        };
        min_of(by_total, cap)
    }
}

/// A profile computed from a machine's figures moves files one at a time
/// exactly when the machine is in the Low tier.
pub proof fn lemma_sequential_moves_exactly_in_low_tier(cpu_threads: usize, available_memory_bytes: u64)
    ensures
        ({
            let tier = spec_classify_tier(cpu_threads, available_memory_bytes);
            let profile = spec_build_profile(cpu_threads, available_memory_bytes, tier);
            &&& profile.move_concurrency >= 1
            &&& (profile.move_concurrency <= 1 <==> tier == PerformanceTier::Low)
        }),
{
}

/// More CPU threads and more memory never give a lower tier.
pub proof fn lemma_tier_monotone(cpu1: usize, mem1: u64, cpu2: usize, mem2: u64)
    requires
        cpu1 <= cpu2,
        mem1 <= mem2,
    ensures
        tier_rank(spec_classify_tier(cpu1, mem1)) <= tier_rank(spec_classify_tier(cpu2, mem2)),
{
}

/// With at least one CPU thread every tier's profile has at least one thread
/// for walking, for metadata and for moves, and reports progress at least
/// every 20 files.
pub proof fn lemma_profile_has_workers(cpu_threads: usize, available_memory_bytes: u64, tier: PerformanceTier, total_files: usize)
    requires
        cpu_threads >= 1,
    ensures
        ({
            let profile = spec_build_profile(cpu_threads, available_memory_bytes, tier);
            &&& profile.walk_threads >= 1
            &&& profile.metadata_threads >= 1
            &&& profile.move_concurrency >= 1
            &&& spec_progress_interval_for_total(profile.progress_interval, total_files)
                >= MIN_PROGRESS_INTERVAL
        }),
{
}

} // verus!
