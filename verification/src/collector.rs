//! The collector: what to do when the save file changes.
//!
//! The collector watches the save file. When the file has been written
//! it waits for the write to settle and then makes a pass: it extracts a
//! snapshot, adds it to the log, replays the log and stores the
//! dashboard. Watching, waiting, reading and writing are the caller's;
//! the decisions are made here.

use crate::aurora_db::AuroraData;
use crate::dashboard::{is_unreadable, snapshots_of, Dashboard, DashboardDb, DbError};
use crate::model::{first_position, rebuilt};
use vstd::prelude::*;

verus! {

/// How long a write to the save file is left to settle before the file
/// is read, in seconds.
pub const SETTLE_SECS: u64 = 10;

/// For how long the watcher gathers changes into one notice, in seconds.
pub const DEBOUNCE_SECS: u64 = 10;

/// Where the collector reads and writes.
#[derive(Clone, Debug)]
pub struct CollectorCfg {
    /// The save file.
    pub db_path: String,
    /// The log of snapshots.
    pub dump_path: String,
    /// The stored dashboard.
    pub dashboard_path: String,
}

/// Why the log could not be turned into a dashboard.
#[derive(Debug, PartialEq, Eq)]
pub enum CollectorError {
    /// The line of the log with this number, counted from 0, is no
    /// snapshot.
    ParseError { line: usize },
}

/// What the watcher of the save file reports.
#[derive(Clone, Copy, Debug, PartialEq, Eq, Structural)]
pub enum WatchEvent {
    /// The save file is being written.
    NoticeWrite,
    /// Anything else that happened to the file.
    Other,
    /// The watcher failed.
    Failed,
}

/// What the collector does next.
#[derive(Clone, Copy, Debug)]
pub enum CollectorStep<'a> {
    /// Wait `settle_secs` seconds, then make a pass: extract a snapshot
    /// from the save file at `db_path`, add it to the log at
    /// `dump_path`, replay that log and store the dashboard at
    /// `dashboard_path`.
    Pass { settle_secs: u64, db_path: &'a str, dump_path: &'a str, dashboard_path: &'a str },
    /// Nothing; go on watching.
    Watch,
    /// Report that the watcher failed; go on watching.
    Report,
}

/// Decides what follows an event of the watcher: a pass over the paths
/// of `cfg` after a write has settled, a report where the watcher
/// failed, else nothing.
pub fn collect<'a>(cfg: &'a CollectorCfg, event: WatchEvent) -> (step: CollectorStep<'a>)
    ensures
        event == WatchEvent::NoticeWrite ==> (step matches CollectorStep::Pass {
            settle_secs,
            db_path,
            dump_path,
            dashboard_path,
        } && settle_secs == SETTLE_SECS && db_path@ == cfg.db_path@ && dump_path@ == cfg.dump_path@
            && dashboard_path@ == cfg.dashboard_path@),
        event == WatchEvent::Other ==> step is Watch,
        event == WatchEvent::Failed ==> step is Report,
{
    match event {
        WatchEvent::NoticeWrite => CollectorStep::Pass {
            settle_secs: SETTLE_SECS,
            db_path: cfg.db_path.as_str(),
            dump_path: cfg.dump_path.as_str(),
            dashboard_path: cfg.dashboard_path.as_str(),
        },
        WatchEvent::Other => CollectorStep::Watch,
        WatchEvent::Failed => CollectorStep::Report,
    }
}

/// Replays the lines of the log into the dashboard that is to be
/// stored. A line holds the snapshot that was read from it, or nothing
/// if it could not be read as one; one such line fails the pass, with
/// the number of the first.
pub fn convert_into_dashboard(lines: &Vec<Option<AuroraData>>) -> (r: Result<
    Dashboard,
    CollectorError,
>)
    ensures
        r is Ok <==> first_position(lines@, is_unreadable()) == lines.len(),
        r matches Ok(d) ==> d@ == rebuilt(snapshots_of(lines@)) && d@.well_formed(),
        r matches Err(e) ==> e == (CollectorError::ParseError {
            line: first_position(lines@, is_unreadable()) as usize,
        }),
{
    match DashboardDb::load_aurora_dump(lines) {
        Ok(d) => Ok(d),
        Err(DbError::ParseError { line }) => Err(CollectorError::ParseError { line }),
    }
}

} // verus!
