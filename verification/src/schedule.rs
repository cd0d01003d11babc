//! When a capture is due for a discover.

use vstd::prelude::*;
use crate::model::AutoDiscoverConfig;
use crate::status::{AutoDiscoverStatus, StatusView};

verus! {

/// The time between two discovers, in milliseconds, where neither the
/// capture nor its status sets one: two hours.
pub const DEFAULT_INTERVAL: u64 = 7_200_000;

/// Whether a capture is due, and when it is next.
#[derive(Clone, Copy, Debug, PartialEq, Eq, Structural)]
pub struct Schedule {
    /// Whether a discover is due now.
    pub due: bool,
    /// The earliest time of the next discover; `None` for a capture that
    /// is not discovered automatically.
    pub next_run: Option<u64>,
}

/// The view of a status that may be absent.
pub open spec fn status_view(status: Option<AutoDiscoverStatus>) -> Option<StatusView> {
    match status {
        Some(s) => Some(s@),
        None => None,
    }
}

/// The time between two discovers: what the status sets for this capture,
/// else what the capture's configuration sets, else the default.
pub open spec fn effective_interval(config: AutoDiscoverConfig, status: StatusView) -> u64 {
    match status.interval {
        Some(i) => i,
        None => match config.interval {
            Some(i) => i,
            None => DEFAULT_INTERVAL,
        },
    }
}

/// The time `interval` after `last`, as far as time is counted.
pub open spec fn time_after(last: u64, interval: u64) -> u64 {
    if last + interval > u64::MAX {
        u64::MAX
    } else {
        (last + interval) as u64
    }
}

/// What the scheduler decides at the time `now`.
///
/// A capture without configuration, or with its shards disabled, is never
/// due and has no next run. Any other capture is due when it has not been
/// discovered yet, or when its interval has passed since the last
/// discover; then its next run is now, and otherwise it is when the
/// interval will have passed.
pub open spec fn schedule_of(
    config: Option<AutoDiscoverConfig>,
    shards_disabled: bool,
    status: Option<StatusView>,
    now: u64,
) -> Schedule {
    match config {
        Some(c) if !shards_disabled => {
            let s = match status {
                Some(s) => s,
                None => StatusView::initial(),
            };
            match s.last_attempt() {
                None => Schedule { due: true, next_run: Some(now) },
                Some(last) => if now >= last + effective_interval(c, s) {
                    Schedule { due: true, next_run: Some(now) }
                } else {
                    Schedule {
                        due: false,
                        next_run: Some(time_after(last, effective_interval(c, s))),
                    }
                },
            }
        },
        _ => Schedule { due: false, next_run: None },
    }
}

/// The status that the scheduler leaves: none for a capture that is not
/// discovered automatically, the one that was there for any other, and a
/// new one where there was none.
pub open spec fn scheduled_status(
    config: Option<AutoDiscoverConfig>,
    shards_disabled: bool,
    status: Option<StatusView>,
) -> Option<StatusView> {
    if config is Some && !shards_disabled {
        match status {
            Some(s) => Some(s),
            None => Some(StatusView::initial()),
        }
    } else {
        None
    }
}

/// The time between two discovers of a capture.
pub fn interval_of(config: &AutoDiscoverConfig, status: &AutoDiscoverStatus) -> (r: u64)
    ensures
        r == effective_interval(*config, status@),
{
    match status.interval {
        Some(i) => i,
        None => match config.interval {
            Some(i) => i,
            None => DEFAULT_INTERVAL,
        },
    }
}

/// The time `interval` after `last`, as far as time is counted.
pub fn add_interval(last: u64, interval: u64) -> (r: u64)
    ensures
        r == time_after(last, interval),
{
    if interval > u64::MAX - last {
        u64::MAX
    } else {
        last + interval
    }
}

/// Decides whether a capture is due at the time `now`, and sets up or
/// clears its status.
pub fn schedule(
    config: &Option<AutoDiscoverConfig>,
    shards_disabled: bool,
    status: &mut Option<AutoDiscoverStatus>,
    now: u64,
) -> (r: Schedule)
    ensures
        r == schedule_of(*config, shards_disabled, status_view(*old(status)), now),
        status_view(*final(status)) == scheduled_status(
            *config,
            shards_disabled,
            status_view(*old(status)),
        ),
{
    let c = match config {
        Some(c) if !shards_disabled => c,
        _ => {
            *status = None;
            return Schedule { due: false, next_run: None };
        },
    };
    if status.is_none() {
        *status = Some(AutoDiscoverStatus::new());
    }
    match status {
        None => Schedule { due: true, next_run: Some(now) },
        Some(s) => {
            let interval = interval_of(c, s);
            match s.last_attempt() {
                None => Schedule { due: true, next_run: Some(now) },
                Some(last) => {
                    let next = add_interval(last, interval);
                    if interval <= u64::MAX - last && now >= next {
                        Schedule { due: true, next_run: Some(now) }
                    } else {
                        Schedule { due: false, next_run: Some(next) }
                    }
                },
            }
        },
    }
}

} // verus!
