//! Settings of the periodic maintenance daemons: sync-log retention and the
//! purge of expired grants.

use vstd::prelude::*;

verus! {

/// Seconds in a day.
pub const SECS_PER_DAY: i64 = 86_400;

/// Seconds in an hour.
pub const SECS_PER_HOUR: u64 = 3_600;

/// Change-log retention: rows older than `retention_days` are purged every
/// `sweep_interval_hours` (at least 1).
#[derive(Debug, Clone, Copy, PartialEq, Eq)]
pub struct SyncLogRetentionService {
    retention_days: i64,
    sweep_interval_hours: u64,
}

impl SyncLogRetentionService {
    pub closed spec fn days(&self) -> i64 {
        self.retention_days
    }

    pub closed spec fn hours(&self) -> u64 {
        self.sweep_interval_hours
    }

    pub fn retention_days(&self) -> (d: i64)
        ensures
            d == self.days(),
    {
        self.retention_days
    }

    pub fn sweep_interval_hours(&self) -> (h: u64)
        ensures
            h == self.hours(),
    {
        self.sweep_interval_hours
    }

    pub fn new(retention_days: u32, sweep_interval_hours: u64) -> (s: Self)
        ensures
            s.days() == retention_days as i64,
            s.hours() == if sweep_interval_hours >= 1 { sweep_interval_hours } else { 1 },
    {
        SyncLogRetentionService {
            retention_days: retention_days as i64,
            sweep_interval_hours: if sweep_interval_hours >= 1 { sweep_interval_hours } else { 1 },
        }
    }

    /// The sweep period in seconds.
    pub fn interval_secs(&self) -> (s: u64)
        requires
            self.hours() * SECS_PER_HOUR <= u64::MAX,
        ensures
            s == self.hours() * SECS_PER_HOUR,
    {
        self.sweep_interval_hours * 3_600
    }

    /// Rows changed before this instant (Unix seconds) are purged by a
    /// sweep at `now`.
    pub fn cutoff(&self, now: i64) -> (c: i64)
        requires
            self.days() >= 0,
            self.days() * SECS_PER_DAY <= i64::MAX,
            now - self.days() * SECS_PER_DAY >= i64::MIN,
        ensures
            c == now - self.days() * SECS_PER_DAY,
    {
        assert(self.retention_days * 86_400 <= i64::MAX);
        let span = self.retention_days * 86_400;
        now - span
    }
}

/// Purge of expired grants: grants past their expiry by more than
/// `grace_days` are deleted every `interval_hours` (at least 1).
#[derive(Debug, Clone, Copy, PartialEq, Eq)]
pub struct GrantCleanupService {
    grace_days: u32,
    interval_hours: u64,
}

impl GrantCleanupService {
    pub closed spec fn grace(&self) -> u32 {
        self.grace_days
    }

    pub closed spec fn interval(&self) -> u64 {
        self.interval_hours
    }

    pub fn new(grace_days: u32, interval_hours: u64) -> (s: Self)
        ensures
            s.grace() == grace_days,
            s.interval() == if interval_hours >= 1 { interval_hours } else { 1 },
    {
        GrantCleanupService { grace_days, interval_hours: if interval_hours >= 1 { interval_hours } else { 1 } }
    }

    pub fn grace_days(&self) -> (d: u32)
        ensures
            d == self.grace(),
    {
        self.grace_days
    }

    pub fn interval_hours(&self) -> (h: u64)
        ensures
            h == self.interval(),
    {
        self.interval_hours
    }

    /// The grace window of a purge: the override when given, else the
    /// configured one.
    pub fn purge_grace(&self, grace_override: Option<u32>) -> (g: u32)
        ensures
            g == match grace_override {
                Some(o) => o,
                None => self.grace(),
            },
    {
        match grace_override {
            Some(o) => o,
            None => self.grace_days,
        }
    }
}

/// What a purge reports: the rows deleted, or 0 when it failed.
pub fn purge_count<E>(result: Result<u64, E>) -> (n: u64)
    ensures
        n == match result {
            Ok(c) => c,
            Err(_) => 0,
        },
{
    match result {
        Ok(c) => c,
        Err(_) => 0,
    }
}

} // verus!
