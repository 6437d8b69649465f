//! The read-only API of the health dashboard.
use crate::config::ReposConfig;
use crate::metrics::{count_queued, count_status, has_status, is_queued, RepoHealth};
use crate::status::{label_key, RepoStatusInfo};
use crate::telemetry::{
    bucket_at, bucket_count, bucket_width, whole_ms, LatencyBucket, LatencyRecorder, NANOS_PER_SEC,
};
use crate::text::{copy_opt, opt_text};
use vstd::prelude::*;

verus! {

pub const DEFAULT_HOURS: u64 = 6;

pub const MAX_HOURS: u64 = 24;

pub const DEFAULT_BUCKET_MINUTES: u64 = 10;

pub const MAX_BUCKET_MINUTES: u64 = 240;

pub const DEFAULT_EVENT_LIMIT: usize = 50;

/// `asked`, or the default where nothing was asked for, within 1 and `most`.
pub open spec fn clamped(asked: Option<u64>, default: u64, most: u64) -> u64 {
    let n = match asked {
        Some(v) => v,
        None => default,
    };
    if n < 1 {
        1
    } else if n > most {
        most
    } else {
        n
    }
}

fn clamp(asked: Option<u64>, default: u64, most: u64) -> (r: u64)
    ensures
        r == clamped(asked, default, most),
{
    let n: u64 = match asked {
        Some(v) => v,
        None => default,
    };
    if n < 1 {
        1
    } else if n > most {
        most
    } else {
        n
    }
}

/// Tool-call latency over the last hours, in buckets of some minutes.
pub struct LatencySeries {
    pub hours: u64,
    pub bucket_minutes: u64,
    pub buckets: Vec<LatencyBucket>,
}

/// Some seconds in nanoseconds.
pub open spec fn nanos_of(secs: int) -> u128 {
    (secs * NANOS_PER_SEC) as u128
}

/// Tool-call latency over the last `hours`, in `bucket_minutes` buckets (both clamped).
pub fn latency_series(
    reads: &LatencyRecorder,
    now: u128,
    now_unix_ms: u64,
    hours: Option<u64>,
    bucket_minutes: Option<u64>,
) -> (r: LatencySeries)
    ensures
        r.hours == clamped(hours, DEFAULT_HOURS, MAX_HOURS),
        r.bucket_minutes == clamped(bucket_minutes, DEFAULT_BUCKET_MINUTES, MAX_BUCKET_MINUTES),
        ({
            let window = whole_ms(nanos_of(r.hours * 3600));
            let bucket = bucket_width(nanos_of(r.bucket_minutes * 60));
            &&& r.buckets@.len() == bucket_count(window, bucket)
            &&& forall|i: int|
                0 <= i < r.buckets@.len() ==> #[trigger] r.buckets@[i] == bucket_at(
                    reads@,
                    now,
                    now_unix_ms,
                    window,
                    bucket,
                    i,
                )
        }),
{
    let h: u64 = clamp(hours, DEFAULT_HOURS, MAX_HOURS);
    let b: u64 = clamp(bucket_minutes, DEFAULT_BUCKET_MINUTES, MAX_BUCKET_MINUTES);
    let window: u128 = (h * 3600) as u128 * NANOS_PER_SEC;
    let bucket: u128 = (b * 60) as u128 * NANOS_PER_SEC;
    LatencySeries {
        hours: h,
        bucket_minutes: b,
        buckets: reads.series_at(now, now_unix_ms, window, bucket),
    }
}

/// An index or governor event.
pub struct Event {
    pub at_ms: u64,
    pub level: String,
    pub msg: String,
    pub repo: Option<String>,
}

/// An index or governor event.
pub struct EventView {
    pub at_ms: u64,
    pub level: Seq<char>,
    pub msg: Seq<char>,
    pub repo: Option<Seq<char>>,
}

impl View for Event {
    type V = EventView;

    open spec fn view(&self) -> EventView {
        EventView {
            at_ms: self.at_ms,
            level: self.level@,
            msg: self.msg@,
            repo: opt_text(self.repo),
        }
    }
}

/// How many events are told: as many as asked for, within 1 and `most`.
pub open spec fn event_limit(asked: Option<usize>, most: usize) -> usize {
    let n = match asked {
        Some(v) => v,
        None => DEFAULT_EVENT_LIMIT,
    };
    if n < 1 {
        1
    } else if n > most {
        most
    } else {
        n
    }
}

/// Newest index and governor events first, `limit` clamped to the log size `most`. `log` is in
/// the order in which the events came.
pub fn events(log: &Vec<Event>, limit: Option<usize>, most: usize) -> (r: Vec<Event>)
    requires
        most >= 1,
    ensures
        r@.len() == (if log@.len() < event_limit(limit, most) {
            log@.len() as int
        } else {
            event_limit(limit, most) as int
        }),
        forall|i: int|
            0 <= i < r@.len() ==> (#[trigger] r@[i])@ == log@[log@.len() - 1 - i]@,
{
    let asked: usize = match limit {
        Some(v) => v,
        None => DEFAULT_EVENT_LIMIT,
    };
    let n: usize = if asked < 1 {
        1
    } else if asked > most {
        most
    } else {
        asked
    };
    let mut r: Vec<Event> = Vec::new();
    while r.len() < n && r.len() < log.len()
        invariant
            r@.len() <= n,
            r@.len() <= log@.len(),
            forall|i: int|
                0 <= i < r@.len() ==> (#[trigger] r@[i])@ == log@[log@.len() - 1 - i]@,
        decreases log.len() - r.len(),
    {
        let e: &Event = &log[log.len() - 1 - r.len()];
        r.push(
            Event {
                at_ms: e.at_ms,
                level: e.level.clone(),
                msg: e.msg.clone(),
                repo: copy_opt(&e.repo),
            },
        );
    }
    r
}

/// What the health of a repository is judged by.
pub struct RepoInput {
    pub alias: String,
    pub path: String,
    pub state: &'static str,
    pub changes: u64,
}

/// Every row of the status with the path that it is registered under, an empty one without.
pub fn repo_inputs(rows: &Vec<(String, RepoStatusInfo)>, config: &ReposConfig) -> (r: Vec<RepoInput>)
    ensures
        r@.len() == rows@.len(),
        forall|i: int|
            0 <= i < r@.len() ==> {
                &&& (#[trigger] r@[i]).alias@ == rows@[i].0@
                &&& r@[i].path@ == (match config@.resolve(rows@[i].0@) {
                    Some(p) => p,
                    None => Seq::empty(),
                })
                &&& r@[i].state@ == label_key(rows@[i].1.status)
                &&& r@[i].changes == rows@[i].1.changes
            },
{
    let mut r: Vec<RepoInput> = Vec::new();
    let mut i: usize = 0;
    while i < rows.len()
        invariant
            i <= rows@.len(),
            r@.len() == i,
            forall|k: int|
                0 <= k < i ==> {
                    &&& (#[trigger] r@[k]).alias@ == rows@[k].0@
                    &&& r@[k].path@ == (match config@.resolve(rows@[k].0@) {
                        Some(p) => p,
                        None => Seq::empty(),
                    })
                    &&& r@[k].state@ == label_key(rows@[k].1.status)
                    &&& r@[k].changes == rows@[k].1.changes
                },
        decreases rows.len() - i,
    {
        let path: String = match config.resolve(rows[i].0.as_str()) {
            Some(p) => p,
            None => String::new(),
        };
        r.push(
            RepoInput {
                alias: rows[i].0.clone(),
                path,
                state: rows[i].1.status.as_str(),
                changes: rows[i].1.changes,
            },
        );
        i += 1;
    }
    r
}

/// How many repositories there are, and how many of them are in a state of note.
#[derive(Debug, Clone, Copy, PartialEq, Eq, Structural)]
pub struct RepoCounts {
    pub total: usize,
    pub indexing: usize,
    pub failing: usize,
    pub queued: usize,
}

/// The number of repositories in the summary.
pub fn repo_counts(repos: &Vec<RepoHealth>) -> (r: RepoCounts)
    ensures
        r.total == repos@.len(),
        r.indexing == repos@.filter(has_status("indexing"@)).len(),
        r.failing == repos@.filter(has_status("failing"@)).len(),
        r.queued == repos@.filter(is_queued()).len(),
{
    RepoCounts {
        total: repos.len(),
        indexing: count_status(repos, "indexing"),
        failing: count_status(repos, "failing"),
        queued: count_queued(repos),
    }
}

} // verus!
