//! Snapshots: what one extraction from a save file holds.
//!
//! The types mirror the rows of the save file. Each has a view that keeps
//! what the dashboard reads of it, with names as sequences of characters.

use crate::scalar::Scalar;
use vstd::prelude::*;

verus! {

/// A game of the save file.
#[derive(Clone, Debug, PartialEq)]
pub struct FCTGame {
    pub game_id: u32,
    pub game_name: String,
    /// Elapsed game time in seconds.
    pub game_time: Scalar,
    pub start_year: u32,
    pub last_viewed: Scalar,
}

/// The seconds of a game year: 365 days.
pub const SECONDS_PER_YEAR: u32 = 31_536_000;

impl FCTGame {
    /// Whether the game was the one last viewed: the mark is a number
    /// above zero.
    pub fn is_last(&self) -> (r: bool)
        ensures
            r == (!self.last_viewed.nan() && self.last_viewed.order_key() > 0),
    {
        self.last_viewed.is_positive()
    }

    /// The year the game has reached: the start year and the whole
    /// years of game time that have passed.
    pub fn year(&self) -> (y: u32)
        requires
            self.game_time.truncated() / (SECONDS_PER_YEAR as int) + self.start_year <= u32::MAX,
        ensures
            y == self.game_time.truncated() / (SECONDS_PER_YEAR as int) + self.start_year,
    {
        self.game_time.to_u32() / SECONDS_PER_YEAR + self.start_year
    }
}

/// The player race of a game, with its game-level metrics.
#[derive(Clone, Copy, Debug, PartialEq, Eq, Structural)]
pub struct FCTRace {
    pub race_id: u32,
    pub wealth: Scalar,
    pub annual_wealth: Scalar,
}

/// A mineral deposit on the body a population lives on.
#[derive(Clone, Copy, Debug, PartialEq, Eq, Structural)]
pub struct FCTMineralDeposit {
    pub material_id: u32,
    pub amount: Scalar,
    pub acc: Scalar,
}

/// A population with its stockpiles.
#[derive(Clone, Debug, PartialEq)]
pub struct FCTPopulation {
    pub population_id: u32,
    pub system_id: Option<u32>,
    pub system_body_id: Option<u32>,
    pub pop_name: String,
    pub fuel_stockpile: Scalar,
    pub maintenance_stockpile: Scalar,
    pub population: Scalar,
    pub duranium: Scalar,
    pub neutronium: Scalar,
    pub corbomite: Scalar,
    pub tritanium: Scalar,
    pub boronide: Scalar,
    pub mercassium: Scalar,
    pub vendarite: Scalar,
    pub sorium: Scalar,
    pub corundium: Scalar,
    /// Absent in snapshots of older save files.
    pub uridium: Option<Scalar>,
    pub gallicite: Scalar,
    /// Absent in snapshots of older save files.
    pub minerals: Option<Vec<FCTMineralDeposit>>,
}

/// One game of a snapshot: the game, its player race and the race's
/// populations.
#[derive(Clone, Debug, PartialEq)]
pub struct AuroraGameData {
    pub game: FCTGame,
    pub race_id: u32,
    /// Absent in snapshots of older save files.
    pub race: Option<FCTRace>,
    pub populations: Vec<FCTPopulation>,
}

/// A snapshot: the state of every game of a save file at one instant.
#[derive(Clone, Debug, PartialEq)]
pub struct AuroraData {
    pub games: Vec<AuroraGameData>,
}

impl FCTPopulation {
    /// Where the population's mineral deposits are looked up: the
    /// system and the body it lives on. A snapshot that lacks one of
    /// them cannot be completed; the error says which, the system first.
    pub fn deposit_site(&self) -> (site: Result<(u32, u32), DbError>)
        ensures
            site is Ok <==> self.system_id is Some && self.system_body_id is Some,
            site matches Ok(pair) ==> self.system_id == Some(pair.0) && self.system_body_id == Some(
                pair.1,
            ),
            site matches Err(DbError::Generic(message)) ==> message@ == (if self.system_id is None {
                "system_id not returned"@
            } else {
                "system_body_id not returned"@
            }),
    {
        match self.system_id {
            None => Err(DbError::Generic("system_id not returned".to_owned())),
            Some(system_id) => match self.system_body_id {
                None => Err(DbError::Generic("system_body_id not returned".to_owned())),
                Some(system_body_id) => Ok((system_id, system_body_id)),
            },
        }
    }
}

impl AuroraGameData {
    /// One game of a snapshot, from the game, its player race and the
    /// race's populations.
    pub fn assemble(game: FCTGame, race: FCTRace, populations: Vec<FCTPopulation>) -> (data:
        AuroraGameData)
        ensures
            data.game == game,
            data.race_id == race.race_id,
            data.race == Some(race),
            data.populations == populations,
    {
        AuroraGameData { game, race_id: race.race_id, race: Some(race), populations }
    }
}

/// Why a snapshot could not be read from a save file.
#[derive(Debug, PartialEq, Eq)]
pub enum DbError {
    /// What went wrong, in words.
    Generic(String),
}

/// A save file, by its path.
#[derive(Clone, Debug, PartialEq)]
pub struct AuroraDb {
    pub path: String,
}

impl AuroraDb {
    /// The save file at `path`. Nothing is opened yet.
    pub fn new(path: &str) -> (db: AuroraDb)
        ensures
            db.path@ == path@,
    {
        AuroraDb { path: path.to_owned() }
    }
}

/// What the dashboard reads of a population.
pub ghost struct PopulationSnapshot {
    pub population_id: u32,
    pub pop_name: Seq<char>,
    pub fuel_stockpile: Scalar,
    pub maintenance_stockpile: Scalar,
    pub population: Scalar,
    pub duranium: Scalar,
    pub neutronium: Scalar,
    pub corbomite: Scalar,
    pub tritanium: Scalar,
    pub boronide: Scalar,
    pub mercassium: Scalar,
    pub vendarite: Scalar,
    pub sorium: Scalar,
    pub corundium: Scalar,
    pub uridium: Option<Scalar>,
    pub gallicite: Scalar,
}

/// What the dashboard reads of one game of a snapshot.
pub ghost struct GameSnapshot {
    pub game_id: u32,
    pub game_name: Seq<char>,
    pub game_time: Scalar,
    pub race: Option<FCTRace>,
    pub populations: Seq<PopulationSnapshot>,
}

/// What the dashboard reads of a snapshot: its games in order.
pub ghost struct Snapshot {
    pub games: Seq<GameSnapshot>,
}

impl View for FCTPopulation {
    type V = PopulationSnapshot;

    open spec fn view(&self) -> PopulationSnapshot {
        PopulationSnapshot {
            population_id: self.population_id,
            pop_name: self.pop_name@,
            fuel_stockpile: self.fuel_stockpile,
            maintenance_stockpile: self.maintenance_stockpile,
            population: self.population,
            duranium: self.duranium,
            neutronium: self.neutronium,
            corbomite: self.corbomite,
            tritanium: self.tritanium,
            boronide: self.boronide,
            mercassium: self.mercassium,
            vendarite: self.vendarite,
            sorium: self.sorium,
            corundium: self.corundium,
            uridium: self.uridium,
            gallicite: self.gallicite,
        }
    }
}

impl View for AuroraGameData {
    type V = GameSnapshot;

    open spec fn view(&self) -> GameSnapshot {
        GameSnapshot {
            game_id: self.game.game_id,
            game_name: self.game.game_name@,
            game_time: self.game.game_time,
            race: self.race,
            populations: self.populations@.map_values(|p: FCTPopulation| p@),
        }
    }
}

impl View for AuroraData {
    type V = Snapshot;

    open spec fn view(&self) -> Snapshot {
        Snapshot { games: self.games@.map_values(|g: AuroraGameData| g@) }
    }
}

} // verus!
