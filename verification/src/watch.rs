//! The steps of listing a path once, or again and again in watch mode.

use vstd::prelude::*;
use crate::options::ListOptions;

verus! {

/// Seconds between two listings in watch mode.
pub const WATCH_INTERVAL_SECS: u64 = 2;

/// One step of listing a path, once or again and again.
#[derive(Clone, Copy, Debug, PartialEq, Eq, Structural)]
pub enum WatchStep {
    /// Clear the screen and put the cursor at its start.
    Clear,
    /// Make the listing and put it out.
    Render,
    /// Put out the error of the listing that failed.
    Report,
    /// Flush what was put out.
    Flush,
    /// Sleep for so many seconds.
    Sleep { seconds: u64 },
    /// End, with the outcome of the last step.
    Stop,
}

/// The first step: a single listing is made at once; in watch mode the
/// screen is cleared first, unless structured records are put out.
pub open spec fn first_step(options: ListOptions) -> WatchStep {
    if options.watch && !options.json {
        WatchStep::Clear
    } else {
        WatchStep::Render
    }
}

/// The sleep between two listings.
pub open spec fn interval() -> WatchStep {
    WatchStep::Sleep { seconds: WATCH_INTERVAL_SECS }
}

/// The step that closes one round in watch mode: records are flushed, text
/// is left as it is until the sleep.
pub open spec fn closing_step(options: ListOptions) -> WatchStep {
    if options.json {
        WatchStep::Flush
    } else {
        interval()
    }
}

/// The step after a step and its outcome. A single listing ends when it
/// is made. In watch mode a listing that fails is reported and the round
/// goes on as after one that did not fail; after the sleep the next round
/// begins; only a failure to clear, to report or to flush ends the watch.
pub open spec fn next_step(options: ListOptions, last: WatchStep, succeeded: bool) -> WatchStep {
    if !options.watch {
        WatchStep::Stop
    } else {
        match last {
            WatchStep::Clear => if succeeded {
                WatchStep::Render
            } else {
                WatchStep::Stop
            },
            WatchStep::Render => if succeeded {
                closing_step(options)
            } else {
                WatchStep::Report
            },
            WatchStep::Report => if succeeded {
                closing_step(options)
            } else {
                WatchStep::Stop
            },
            WatchStep::Flush => if succeeded {
                interval()
            } else {
                WatchStep::Stop
            },
            WatchStep::Sleep { .. } => first_step(options),
            WatchStep::Stop => WatchStep::Stop,
        }
    }
}

/// Says what listing a path does next: at the start, with no step behind
/// it, its first step; else the step that follows the last one and its
/// outcome. In watch mode a failed listing never ends the watch, and
/// every sleep lasts `WATCH_INTERVAL_SECS` seconds.
pub fn list_path(options: &ListOptions, last: Option<WatchStep>, succeeded: bool) -> (r: WatchStep)
    ensures
        r == (match last {
            None => first_step(*options),
            Some(step) => next_step(*options, step, succeeded),
        }),
        options.watch && last == Some(WatchStep::Render) ==> r != WatchStep::Stop,
        options.watch && (last matches Some(WatchStep::Sleep { .. })) ==> r != WatchStep::Stop,
        (r matches WatchStep::Sleep { seconds } ==> seconds == 2),
{
    let first = if options.watch && !options.json {
        WatchStep::Clear
    } else {
        WatchStep::Render
    };
    let sleep = WatchStep::Sleep { seconds: WATCH_INTERVAL_SECS };
    let closing = if options.json {
        WatchStep::Flush
    } else {
        sleep
    };
    match last {
        None => first,
        Some(step) => {
            if !options.watch {
                return WatchStep::Stop;
            }
            match step {
                WatchStep::Clear => if succeeded {
                    WatchStep::Render
                } else {
                    WatchStep::Stop
                },
                WatchStep::Render => if succeeded {
                    closing
                } else {
                    WatchStep::Report
                },
                WatchStep::Report => if succeeded {
                    closing
                } else {
                    WatchStep::Stop
                },
                WatchStep::Flush => if succeeded {
                    sleep
                } else {
                    WatchStep::Stop
                },
                WatchStep::Sleep { .. } => first,
                WatchStep::Stop => WatchStep::Stop,
            }
        },
    }
}

} // verus!
