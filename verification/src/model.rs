//! The dashboard as a mathematical value, and what a snapshot does to it.
//!
//! Games, populations and series are found by key: a game by its id, a
//! population by its id within its game, a series by its name within its
//! owner. Each list is in order of first appearance, and where a key
//! occurs twice in a list the first entry is the one that is found.

use crate::aurora_db::{FCTRace, GameSnapshot, PopulationSnapshot, Snapshot};
use crate::dashboard::HistoricalValue;
use crate::scalar::Scalar;
use crate::series::in_time_order;
use vstd::prelude::*;

verus! {

/// The history of one metric.
pub ghost struct Series {
    pub name: Seq<char>,
    pub historical: Seq<HistoricalValue>,
}

/// The series of one population.
pub ghost struct PopulationSeries {
    pub population_id: u32,
    pub population_name: Seq<char>,
    pub fields: Seq<Series>,
}

/// The series of one game: its own and those of its populations.
pub ghost struct GameSeries {
    pub game_id: u32,
    pub game_name: Seq<char>,
    pub fields: Seq<Series>,
    pub populations: Seq<PopulationSeries>,
}

/// All games of a dashboard.
pub ghost struct TimeSeriesModel {
    pub games: Seq<GameSeries>,
}

/// A point on its way into the series called `name`.
pub ghost struct NamedPoint {
    pub name: Seq<char>,
    pub point: HistoricalValue,
}

/// The first position of `s` at which `hit` holds; `s.len()` if it holds
/// nowhere.
pub open spec fn first_position<A>(s: Seq<A>, hit: spec_fn(A) -> bool) -> int
    decreases s.len(),
{
    if s.len() == 0 {
        0
    } else {
        let before = first_position(s.drop_last(), hit);
        if before < s.len() - 1 {
            before
        } else if hit(s.last()) {
            s.len() - 1
        } else {
            s.len() as int
        }
    }
}

/// The test for a series called `name`.
pub open spec fn is_named(name: Seq<char>) -> spec_fn(Series) -> bool {
    |f: Series| f.name == name
}

/// The test for the population with the given id.
pub open spec fn is_population(population_id: u32) -> spec_fn(PopulationSeries) -> bool {
    |p: PopulationSeries| p.population_id == population_id
}

/// The test for the game with the given id.
pub open spec fn is_game(game_id: u32) -> spec_fn(GameSeries) -> bool {
    |g: GameSeries| g.game_id == game_id
}

/// Where the series called `name` stands in `fields`.
pub open spec fn field_position(fields: Seq<Series>, name: Seq<char>) -> int {
    first_position(fields, is_named(name))
}

/// Where the population with the given id stands in `populations`.
pub open spec fn population_position(populations: Seq<PopulationSeries>, population_id: u32) -> int {
    first_position(populations, is_population(population_id))
}

/// Where the game with the given id stands in `games`.
pub open spec fn game_position(games: Seq<GameSeries>, game_id: u32) -> int {
    first_position(games, is_game(game_id))
}

impl Series {
    /// A series without points.
    pub open spec fn empty(name: Seq<char>) -> Series {
        Series { name, historical: Seq::empty() }
    }

    /// The series after `p` has arrived: `p` joins at the end, and the
    /// points are put in time order.
    pub open spec fn with_point(self, p: HistoricalValue) -> Series {
        Series { name: self.name, historical: in_time_order(self.historical.push(p)) }
    }
}

/// `fields` after `p` has arrived for the series called `name`. The
/// series is made first if there is none of that name.
pub open spec fn fields_with_point(fields: Seq<Series>, name: Seq<char>, p: HistoricalValue) -> Seq<
    Series,
> {
    let i = field_position(fields, name);
    let have = if i < fields.len() {
        fields
    } else {
        fields.push(Series::empty(name))
    };
    have.update(i, have[i].with_point(p))
}

/// `fields` after the points of `points` have arrived, first to last.
pub open spec fn fields_with_points(fields: Seq<Series>, points: Seq<NamedPoint>) -> Seq<Series>
    decreases points.len(),
{
    if points.len() == 0 {
        fields
    } else {
        fields_with_point(
            fields_with_points(fields, points.drop_last()),
            points.last().name,
            points.last().point,
        )
    }
}

/// How many metrics of a population the dashboard tracks.
pub const METRIC_COUNT: usize = 14;

/// How many metrics of a race the dashboard tracks.
pub const RACE_METRIC_COUNT: usize = 2;

/// The name of the `i`-th tracked metric of a population.
pub open spec fn metric_name(i: int) -> Seq<char> {
    if i == 0 {
        "fuel_stockpile"@
    } else if i == 1 {
        "maintenance_stockpile"@
    } else if i == 2 {
        "population"@
    } else if i == 3 {
        "duranium"@
    } else if i == 4 {
        "neutronium"@
    } else if i == 5 {
        "corbomite"@
    } else if i == 6 {
        "tritanium"@
    } else if i == 7 {
        "boronide"@
    } else if i == 8 {
        "mercassium"@
    } else if i == 9 {
        "vendarite"@
    } else if i == 10 {
        "sorium"@
    } else if i == 11 {
        "uridium"@
    } else if i == 12 {
        "corundium"@
    } else {
        "gallicite"@
    }
}

/// The name of the `i`-th tracked metric of a race.
pub open spec fn race_metric_name(i: int) -> Seq<char> {
    if i == 0 {
        "wealth"@
    } else {
        "annual_wealth"@
    }
}

impl PopulationSnapshot {
    /// The value of the `i`-th tracked metric. A metric that the
    /// snapshot lacks counts as zero.
    pub open spec fn metric(self, i: int) -> Scalar {
        if i == 0 {
            self.fuel_stockpile
        } else if i == 1 {
            self.maintenance_stockpile
        } else if i == 2 {
            self.population
        } else if i == 3 {
            self.duranium
        } else if i == 4 {
            self.neutronium
        } else if i == 5 {
            self.corbomite
        } else if i == 6 {
            self.tritanium
        } else if i == 7 {
            self.boronide
        } else if i == 8 {
            self.mercassium
        } else if i == 9 {
            self.vendarite
        } else if i == 10 {
            self.sorium
        } else if i == 11 {
            match self.uridium {
                Some(v) => v,
                None => Scalar { bits: 0 },
            }
        } else if i == 12 {
            self.corundium
        } else {
            self.gallicite
        }
    }
}

/// The value of the `i`-th tracked metric of a race.
pub open spec fn race_metric(race: FCTRace, i: int) -> Scalar {
    if i == 0 {
        race.wealth
    } else {
        race.annual_wealth
    }
}

/// The points that a population observed at time `date` brings: one for
/// each tracked metric, in the order of the metrics.
pub open spec fn population_points(date: Scalar, snapshot: PopulationSnapshot) -> Seq<NamedPoint> {
    Seq::new(
        METRIC_COUNT as nat,
        |i: int|
            NamedPoint {
                name: metric_name(i),
                point: HistoricalValue { x: date, y: snapshot.metric(i) },
            },
    )
}

/// The points that the race of a game observed at time `date` brings:
/// one for each tracked metric if the snapshot has the race, else none.
pub open spec fn race_points(date: Scalar, race: Option<FCTRace>) -> Seq<NamedPoint> {
    match race {
        Some(r) => Seq::new(
            RACE_METRIC_COUNT as nat,
            |i: int|
                NamedPoint {
                    name: race_metric_name(i),
                    point: HistoricalValue { x: date, y: race_metric(r, i) },
                },
        ),
        None => Seq::empty(),
    }
}

impl PopulationSeries {
    /// A population that was just seen for the first time.
    pub open spec fn empty(population_id: u32, population_name: Seq<char>) -> PopulationSeries {
        PopulationSeries { population_id, population_name, fields: Seq::empty() }
    }

    /// The population after `p` has arrived for its series `name`.
    pub open spec fn with_point(self, name: Seq<char>, p: HistoricalValue) -> PopulationSeries {
        PopulationSeries { fields: fields_with_point(self.fields, name, p), ..self }
    }

    /// The population after a snapshot of it, taken at time `date`, has
    /// been merged. Its name stays as it is.
    pub open spec fn with_snapshot(self, date: Scalar, snapshot: PopulationSnapshot) -> PopulationSeries {
        PopulationSeries {
            fields: fields_with_points(self.fields, population_points(date, snapshot)),
            ..self
        }
    }
}

/// `populations` after a snapshot of one population has been merged. The
/// population is made first, under the snapshot's name, if none has its
/// id.
pub open spec fn populations_with(
    populations: Seq<PopulationSeries>,
    date: Scalar,
    snapshot: PopulationSnapshot,
) -> Seq<PopulationSeries> {
    let i = population_position(populations, snapshot.population_id);
    let have = if i < populations.len() {
        populations
    } else {
        populations.push(PopulationSeries::empty(snapshot.population_id, snapshot.pop_name))
    };
    have.update(i, have[i].with_snapshot(date, snapshot))
}

/// `populations` after the snapshots of `snapshots` have been merged,
/// first to last.
pub open spec fn populations_with_all(
    populations: Seq<PopulationSeries>,
    date: Scalar,
    snapshots: Seq<PopulationSnapshot>,
) -> Seq<PopulationSeries>
    decreases snapshots.len(),
{
    if snapshots.len() == 0 {
        populations
    } else {
        populations_with(
            populations_with_all(populations, date, snapshots.drop_last()),
            date,
            snapshots.last(),
        )
    }
}

impl GameSeries {
    /// A game that was just seen for the first time.
    pub open spec fn empty(game_id: u32, game_name: Seq<char>) -> GameSeries {
        GameSeries { game_id, game_name, fields: Seq::empty(), populations: Seq::empty() }
    }

    /// The game after a snapshot of it has been merged: the race's
    /// points go to the game's own series, and each population of the
    /// snapshot is merged in turn. The game's name stays as it is.
    pub open spec fn with_snapshot(self, snapshot: GameSnapshot) -> GameSeries {
        GameSeries {
            fields: fields_with_points(self.fields, race_points(snapshot.game_time, snapshot.race)),
            populations: populations_with_all(
                self.populations,
                snapshot.game_time,
                snapshot.populations,
            ),
            ..self
        }
    }
}

/// `games` after a snapshot of one game has been merged. The game is
/// made first, under the snapshot's name, if none has its id.
pub open spec fn games_with(games: Seq<GameSeries>, snapshot: GameSnapshot) -> Seq<GameSeries> {
    let i = game_position(games, snapshot.game_id);
    let have = if i < games.len() {
        games
    } else {
        games.push(GameSeries::empty(snapshot.game_id, snapshot.game_name))
    };
    have.update(i, have[i].with_snapshot(snapshot))
}

/// `games` after the snapshots of `snapshots` have been merged, first to
/// last.
pub open spec fn games_with_all(games: Seq<GameSeries>, snapshots: Seq<GameSnapshot>) -> Seq<
    GameSeries,
>
    decreases snapshots.len(),
{
    if snapshots.len() == 0 {
        games
    } else {
        games_with(games_with_all(games, snapshots.drop_last()), snapshots.last())
    }
}

impl TimeSeriesModel {
    /// The dashboard that has seen nothing.
    pub open spec fn empty() -> TimeSeriesModel {
        TimeSeriesModel { games: Seq::empty() }
    }

    /// The dashboard after `snapshot` has been merged.
    pub open spec fn with_snapshot(self, snapshot: Snapshot) -> TimeSeriesModel {
        TimeSeriesModel { games: games_with_all(self.games, snapshot.games) }
    }

    /// The dashboard after the snapshots of `log` have been merged,
    /// first to last.
    pub open spec fn with_log(self, log: Seq<Snapshot>) -> TimeSeriesModel
        decreases log.len(),
    {
        if log.len() == 0 {
            self
        } else {
            self.with_log(log.drop_last()).with_snapshot(log.last())
        }
    }
}

/// The dashboard that a log of snapshots gives when it is replayed from
/// nothing.
pub open spec fn rebuilt(log: Seq<Snapshot>) -> TimeSeriesModel {
    TimeSeriesModel::empty().with_log(log)
}

/// Whether `fields` has a series called `name`.
pub open spec fn has_series(fields: Seq<Series>, name: Seq<char>) -> bool {
    field_position(fields, name) < fields.len()
}

/// The points of the series called `name`; none if `fields` has no such
/// series.
pub open spec fn history(fields: Seq<Series>, name: Seq<char>) -> Seq<HistoricalValue> {
    if has_series(fields, name) {
        fields[field_position(fields, name)].historical
    } else {
        Seq::empty()
    }
}

/// Whether `populations` has a population with the given id.
pub open spec fn has_population(populations: Seq<PopulationSeries>, population_id: u32) -> bool {
    population_position(populations, population_id) < populations.len()
}

/// The series of the population with the given id; none if
/// `populations` has no such population.
pub open spec fn population_fields(populations: Seq<PopulationSeries>, population_id: u32) -> Seq<
    Series,
> {
    if has_population(populations, population_id) {
        populations[population_position(populations, population_id)].fields
    } else {
        Seq::empty()
    }
}

impl TimeSeriesModel {
    /// Whether the dashboard has a game with the given id.
    pub open spec fn has_game(self, game_id: u32) -> bool {
        game_position(self.games, game_id) < self.games.len()
    }

    /// The game with the given id, where the dashboard has one.
    pub open spec fn game(self, game_id: u32) -> GameSeries {
        self.games[game_position(self.games, game_id)]
    }

    /// The game's own series; none if the dashboard lacks the game.
    pub open spec fn game_fields(self, game_id: u32) -> Seq<Series> {
        if self.has_game(game_id) {
            self.game(game_id).fields
        } else {
            Seq::empty()
        }
    }

    /// The populations of the game; none if the dashboard lacks the
    /// game.
    pub open spec fn populations(self, game_id: u32) -> Seq<PopulationSeries> {
        if self.has_game(game_id) {
            self.game(game_id).populations
        } else {
            Seq::empty()
        }
    }

    /// Whether the game with the given id has a series of its own
    /// called `name`.
    pub open spec fn has_game_series(self, game_id: u32, name: Seq<char>) -> bool {
        has_series(self.game_fields(game_id), name)
    }

    /// The points of the game's own series called `name`; none where
    /// the game or the series is missing.
    pub open spec fn game_history(self, game_id: u32, name: Seq<char>) -> Seq<HistoricalValue> {
        history(self.game_fields(game_id), name)
    }

    /// Whether the game with the given id has the population with the
    /// given id.
    pub open spec fn has_population(self, game_id: u32, population_id: u32) -> bool {
        has_population(self.populations(game_id), population_id)
    }

    /// Whether the population has a series called `name`.
    pub open spec fn has_population_series(
        self,
        game_id: u32,
        population_id: u32,
        name: Seq<char>,
    ) -> bool {
        has_series(population_fields(self.populations(game_id), population_id), name)
    }

    /// The points of the population's series called `name`; none where
    /// the game, the population or the series is missing.
    pub open spec fn population_history(
        self,
        game_id: u32,
        population_id: u32,
        name: Seq<char>,
    ) -> Seq<HistoricalValue> {
        history(population_fields(self.populations(game_id), population_id), name)
    }
}

/// The points of `points` that go to the series called `name`, in
/// their order.
pub open spec fn points_named(points: Seq<NamedPoint>, name: Seq<char>) -> Seq<HistoricalValue>
    decreases points.len(),
{
    if points.len() == 0 {
        Seq::empty()
    } else if points.last().name == name {
        points_named(points.drop_last(), name).push(points.last().point)
    } else {
        points_named(points.drop_last(), name)
    }
}

/// The points that snapshots of populations, all taken at time `date`,
/// bring to the series called `name` of the population with the given
/// id, in their order.
pub open spec fn populations_points(
    date: Scalar,
    snapshots: Seq<PopulationSnapshot>,
    population_id: u32,
    name: Seq<char>,
) -> Seq<HistoricalValue>
    decreases snapshots.len(),
{
    if snapshots.len() == 0 {
        Seq::empty()
    } else {
        let before = populations_points(date, snapshots.drop_last(), population_id, name);
        if snapshots.last().population_id == population_id {
            before + points_named(population_points(date, snapshots.last()), name)
        } else {
            before
        }
    }
}

/// The points that snapshots of games bring to the series called `name`
/// of one population of one game, in their order.
pub open spec fn games_population_points(
    snapshots: Seq<GameSnapshot>,
    game_id: u32,
    population_id: u32,
    name: Seq<char>,
) -> Seq<HistoricalValue>
    decreases snapshots.len(),
{
    if snapshots.len() == 0 {
        Seq::empty()
    } else {
        let before = games_population_points(snapshots.drop_last(), game_id, population_id, name);
        if snapshots.last().game_id == game_id {
            before + populations_points(
                snapshots.last().game_time,
                snapshots.last().populations,
                population_id,
                name,
            )
        } else {
            before
        }
    }
}

/// The points that snapshots of games bring to the series called `name`
/// of one game itself, in their order.
pub open spec fn games_race_points(snapshots: Seq<GameSnapshot>, game_id: u32, name: Seq<char>) -> Seq<
    HistoricalValue,
>
    decreases snapshots.len(),
{
    if snapshots.len() == 0 {
        Seq::empty()
    } else {
        let before = games_race_points(snapshots.drop_last(), game_id, name);
        if snapshots.last().game_id == game_id {
            before + points_named(
                race_points(snapshots.last().game_time, snapshots.last().race),
                name,
            )
        } else {
            before
        }
    }
}

impl Snapshot {
    /// The points that the snapshot brings to the series called `name`
    /// of one population of one game, in their order.
    pub open spec fn population_points(self, game_id: u32, population_id: u32, name: Seq<char>) -> Seq<
        HistoricalValue,
    > {
        games_population_points(self.games, game_id, population_id, name)
    }

    /// The points that the snapshot brings to the series called `name`
    /// of one game itself, in their order.
    pub open spec fn game_points(self, game_id: u32, name: Seq<char>) -> Seq<HistoricalValue> {
        games_race_points(self.games, game_id, name)
    }
}

/// The points that the snapshots of a log bring to the series called
/// `name` of one population of one game, in the order of the log.
pub open spec fn log_population_points(
    log: Seq<Snapshot>,
    game_id: u32,
    population_id: u32,
    name: Seq<char>,
) -> Seq<HistoricalValue>
    decreases log.len(),
{
    if log.len() == 0 {
        Seq::empty()
    } else {
        log_population_points(log.drop_last(), game_id, population_id, name)
            + log.last().population_points(game_id, population_id, name)
    }
}

/// The points that the snapshots of a log bring to the series called
/// `name` of one game itself, in the order of the log.
pub open spec fn log_game_points(log: Seq<Snapshot>, game_id: u32, name: Seq<char>) -> Seq<
    HistoricalValue,
>
    decreases log.len(),
{
    if log.len() == 0 {
        Seq::empty()
    } else {
        log_game_points(log.drop_last(), game_id, name) + log.last().game_points(game_id, name)
    }
}

/// What `first_position` finds: nothing before it is a hit, and it is a
/// hit itself unless it is the end.
pub proof fn lemma_first_position<A>(s: Seq<A>, hit: spec_fn(A) -> bool)
    ensures
        0 <= first_position(s, hit) <= s.len(),
        first_position(s, hit) < s.len() ==> hit(s[first_position(s, hit)]),
        forall|j: int| 0 <= j < first_position(s, hit) ==> !hit(#[trigger] s[j]),
    decreases s.len(),
{
    if s.len() > 0 {
        let front = s.drop_last();
        lemma_first_position(front, hit);
        assert forall|j: int| 0 <= j < first_position(s, hit) implies !hit(#[trigger] s[j]) by {
            if j < front.len() {
                assert(front[j] == s[j]);
            }
        }
        if first_position(front, hit) < front.len() {
            assert(front[first_position(front, hit)] == s[first_position(front, hit)]);
        }
    }
}

/// A position with no hit before it, which is a hit or the end, is the
/// first position.
pub proof fn lemma_first_position_is<A>(s: Seq<A>, hit: spec_fn(A) -> bool, i: int)
    requires
        0 <= i <= s.len(),
        i < s.len() ==> hit(s[i]),
        forall|j: int| 0 <= j < i ==> !hit(#[trigger] s[j]),
    ensures
        first_position(s, hit) == i,
{
    lemma_first_position(s, hit);
    let k = first_position(s, hit);
    if k < i {
        assert(!hit(s[k]));
    }
}

} // verus!
