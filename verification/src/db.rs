//! A log of snapshots and its data.
//!
//! The data of a log is the dashboard that replaying the log gives; the
//! names here are those under which readers of a log know its parts.

use crate::dashboard::{Dashboard, DashboardField, DashboardPopulation, GameDashboard};
pub use crate::dashboard::{DbError, HistoricalValue};
use vstd::prelude::*;

verus! {

/// The history of one metric.
pub type FieldDbData = DashboardField;

/// The series of one population.
pub type PopulationDbData = DashboardPopulation;

/// The series of one game.
pub type GameDbData = GameDashboard;

/// The data of a log.
pub type DbData = Dashboard;

/// A log of snapshots, by its path. The log is read when its data is
/// asked for, not before.
#[derive(Clone, Debug, PartialEq)]
pub struct Db {
    pub path: String,
}

impl Db {
    /// The log at `path`. Nothing is read yet, so this does not fail.
    pub fn load(path: &str) -> (r: Result<Db, DbError>)
        ensures
            r matches Ok(db) && db.path@ == path@,
    {
        Ok(Db { path: path.to_owned() })
    }
}

} // verus!
