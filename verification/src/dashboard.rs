//! The dashboard: the aggregated history of every game that was seen.

use crate::arrival::lemma_snapshot_arrives;
use crate::aurora_db::{AuroraData, AuroraGameData, FCTPopulation, FCTRace, Snapshot};
use crate::laws::{
    lemma_append_keeps_keys, lemma_append_keeps_order, lemma_append_keeps_well_formed,
    lemma_rebuilt_well_formed,
};
use crate::model::{
    field_position, fields_with_point, fields_with_points, first_position, game_position,
    games_with, games_with_all, is_game, is_named, is_population, lemma_first_position,
    lemma_first_position_is, metric_name, population_points, population_position,
    populations_with, populations_with_all, race_metric, race_metric_name, race_points, rebuilt,
    GameSeries, NamedPoint, PopulationSeries, Series, TimeSeriesModel, METRIC_COUNT,
    RACE_METRIC_COUNT,
};
use crate::scalar::Scalar;
use crate::series::{arrived, sort_by_time};
use vstd::prelude::*;

verus! {

/// One point of a series: a value `y` observed at game time `x`.
#[derive(Clone, Copy, Debug, PartialEq, Eq, Structural)]
pub struct HistoricalValue {
    pub x: Scalar,
    pub y: Scalar,
}

/// The history of one metric, by name.
#[derive(Clone, Debug, PartialEq)]
pub struct DashboardField {
    pub name: String,
    pub historical: Vec<HistoricalValue>,
}

impl View for DashboardField {
    type V = Series;

    open spec fn view(&self) -> Series {
        Series { name: self.name@, historical: self.historical@ }
    }
}

/// The views of a list of fields.
pub open spec fn field_views(fields: Seq<DashboardField>) -> Seq<Series> {
    fields.map_values(|f: DashboardField| f@)
}

impl DashboardField {
    /// A series called `name` without points.
    pub fn new(name: &str) -> (f: DashboardField)
        ensures
            f@ == Series::empty(name@),
    {
        DashboardField { name: name.to_owned(), historical: Vec::new() }
    }

    /// Adds a point and puts the series back in time order.
    pub fn push_point(&mut self, p: HistoricalValue)
        ensures
            final(self)@ == old(self)@.with_point(p),
    {
        self.historical.push(p);
        sort_by_time(&mut self.historical);
    }
}

/// Finds the series called `name`: its position in `fields`, or the
/// length of `fields` if there is none.
pub fn find_field(fields: &Vec<DashboardField>, name: &str) -> (i: usize)
    ensures
        i == field_position(field_views(fields@), name@),
        i <= fields.len(),
        i < fields.len() ==> fields[i as int].name@ == name@,
        forall|j: int| 0 <= j < i ==> fields[j].name@ != name@,
{
    let wanted = name.to_owned();
    let mut i: usize = 0;
    while i < fields.len() && !(fields[i].name == wanted)
        invariant
            i <= fields.len(),
            wanted@ == name@,
            forall|j: int| 0 <= j < i ==> fields[j].name@ != name@,
        decreases fields.len() - i,
    {
        i += 1;
    }
    proof {
        let views = field_views(fields@);
        assert forall|j: int| 0 <= j < i implies !is_named(name@)(#[trigger] views[j]) by {
            assert(views[j] == fields[j]@);
        }
        lemma_first_position_is(views, is_named(name@), i as int);
    }
    i
}

/// Adds the point `p` to the series called `name`, which is made first
/// if `fields` has none of that name.
pub fn append_point(fields: &mut Vec<DashboardField>, name: &str, p: HistoricalValue)
    ensures
        field_views(final(fields)@) == fields_with_point(field_views(old(fields)@), name@, p),
{
    let i = find_field(fields, name);
    if i == fields.len() {
        fields.push(DashboardField::new(name));
    }
    let ghost have = fields@;
    fields[i].push_point(p);
    proof {
        let before = field_views(old(fields)@);
        let have_views = if i < old(fields)@.len() {
            before
        } else {
            before.push(Series::empty(name@))
        };
        assert(field_views(have) =~= have_views);
        assert(field_views(fields@) =~= have_views.update(i as int, have_views[i as int].with_point(p)));
    }
}

/// The name of the `i`-th tracked metric of a population.
pub fn metric_label(i: usize) -> (name: &'static str)
    requires
        i < METRIC_COUNT,
    ensures
        name@ == metric_name(i as int),
{
    if i == 0 {
        "fuel_stockpile"
    } else if i == 1 {
        "maintenance_stockpile"
    } else if i == 2 {
        "population"
    } else if i == 3 {
        "duranium"
    } else if i == 4 {
        "neutronium"
    } else if i == 5 {
        "corbomite"
    } else if i == 6 {
        "tritanium"
    } else if i == 7 {
        "boronide"
    } else if i == 8 {
        "mercassium"
    } else if i == 9 {
        "vendarite"
    } else if i == 10 {
        "sorium"
    } else if i == 11 {
        "uridium"
    } else if i == 12 {
        "corundium"
    } else {
        "gallicite"
    }
}

/// The value of the `i`-th tracked metric of a population; zero for one
/// that the snapshot lacks.
pub fn metric_value(population: &FCTPopulation, i: usize) -> (v: Scalar)
    requires
        i < METRIC_COUNT,
    ensures
        v == population@.metric(i as int),
{
    if i == 0 {
        population.fuel_stockpile
    } else if i == 1 {
        population.maintenance_stockpile
    } else if i == 2 {
        population.population
    } else if i == 3 {
        population.duranium
    } else if i == 4 {
        population.neutronium
    } else if i == 5 {
        population.corbomite
    } else if i == 6 {
        population.tritanium
    } else if i == 7 {
        population.boronide
    } else if i == 8 {
        population.mercassium
    } else if i == 9 {
        population.vendarite
    } else if i == 10 {
        population.sorium
    } else if i == 11 {
        match population.uridium {
            Some(v) => v,
            None => Scalar::zero(),
        }
    } else if i == 12 {
        population.corundium
    } else {
        population.gallicite
    }
}

/// The name of the `i`-th tracked metric of a race.
pub fn race_metric_label(i: usize) -> (name: &'static str)
    requires
        i < RACE_METRIC_COUNT,
    ensures
        name@ == race_metric_name(i as int),
{
    if i == 0 {
        "wealth"
    } else {
        "annual_wealth"
    }
}

/// The value of the `i`-th tracked metric of a race.
pub fn race_metric_value(race: &FCTRace, i: usize) -> (v: Scalar)
    requires
        i < RACE_METRIC_COUNT,
    ensures
        v == race_metric(*race, i as int),
{
    if i == 0 {
        race.wealth
    } else {
        race.annual_wealth
    }
}

/// The series of one population.
#[derive(Clone, Debug, PartialEq)]
pub struct DashboardPopulation {
    pub population_id: u32,
    pub population_name: String,
    pub fields: Vec<DashboardField>,
}

impl View for DashboardPopulation {
    type V = PopulationSeries;

    open spec fn view(&self) -> PopulationSeries {
        PopulationSeries {
            population_id: self.population_id,
            population_name: self.population_name@,
            fields: field_views(self.fields@),
        }
    }
}

/// The views of a list of populations.
pub open spec fn population_views(populations: Seq<DashboardPopulation>) -> Seq<PopulationSeries> {
    populations.map_values(|p: DashboardPopulation| p@)
}

impl DashboardPopulation {
    /// A population without series.
    pub fn new(population_id: u32, population_name: &str) -> (p: DashboardPopulation)
        ensures
            p@ == PopulationSeries::empty(population_id, population_name@),
    {
        let p = DashboardPopulation {
            population_id,
            population_name: population_name.to_owned(),
            fields: Vec::new(),
        };
        proof {
            assert(field_views(p.fields@) =~= Seq::<Series>::empty());
        }
        p
    }

    /// Whether the population has a series called `name`.
    pub open spec fn has_field(&self, name: Seq<char>) -> bool {
        field_position(self@.fields, name) < self@.fields.len()
    }

    /// The series called `name`, if the population has one.
    pub fn field(&self, name: &str) -> (found: Option<&DashboardField>)
        ensures
            found is Some <==> self.has_field(name@),
            found matches Some(f) ==> *f == self.fields[field_position(self@.fields, name@)],
    {
        let i = find_field(&self.fields, name);
        if i < self.fields.len() {
            Some(&self.fields[i])
        } else {
            None
        }
    }

    /// The series called `name`, which the population must have.
    pub fn get_field(&self, name: &str) -> (f: &DashboardField)
        requires
            self.has_field(name@),
        ensures
            *f == self.fields[field_position(self@.fields, name@)],
            f@.name == name@,
    {
        let i = find_field(&self.fields, name);
        proof {
            lemma_first_position(self@.fields, is_named(name@));
            assert(self@.fields[i as int] == self.fields[i as int]@);
        }
        &self.fields[i]
    }

    /// Merges a snapshot of the population, taken at game time `date`:
    /// every tracked metric gets a point. The population's name stays as
    /// it is.
    pub fn append(&mut self, date: Scalar, snapshot: &FCTPopulation)
        ensures
            final(self)@ == old(self)@.with_snapshot(date, snapshot@),
    {
        let ghost points = population_points(date, snapshot@);
        let mut i: usize = 0;
        proof {
            assert(points.subrange(0, 0) =~= Seq::<NamedPoint>::empty());
        }
        while i < METRIC_COUNT
            invariant
                i <= METRIC_COUNT,
                points == population_points(date, snapshot@),
                self@ == (PopulationSeries {
                    fields: fields_with_points(old(self)@.fields, points.subrange(0, i as int)),
                    ..old(self)@
                }),
            decreases METRIC_COUNT - i,
        {
            Dashboard::append_field(self, date, metric_label(i), metric_value(snapshot, i));
            proof {
                let next = points.subrange(0, i + 1);
                assert(next.drop_last() =~= points.subrange(0, i as int));
                assert(next.last() == points[i as int]);
            }
            i += 1;
        }
        proof {
            assert(points.subrange(0, METRIC_COUNT as int) =~= points);
        }
    }
}

/// Finds the population with the given id: its position in
/// `populations`, or the length of `populations` if there is none.
pub fn find_population(populations: &Vec<DashboardPopulation>, population_id: u32) -> (i: usize)
    ensures
        i == population_position(population_views(populations@), population_id),
        i <= populations.len(),
        i < populations.len() ==> populations[i as int].population_id == population_id,
        forall|j: int| 0 <= j < i ==> populations[j].population_id != population_id,
{
    let mut i: usize = 0;
    while i < populations.len() && populations[i].population_id != population_id
        invariant
            i <= populations.len(),
            forall|j: int| 0 <= j < i ==> populations[j].population_id != population_id,
        decreases populations.len() - i,
    {
        i += 1;
    }
    proof {
        let views = population_views(populations@);
        assert forall|j: int| 0 <= j < i implies !is_population(population_id)(#[trigger] views[j]) by {
            assert(views[j] == populations[j]@);
        }
        lemma_first_position_is(views, is_population(population_id), i as int);
    }
    i
}

/// Merges a snapshot of one population, taken at game time `date`. The
/// population is made first, under the snapshot's name, if
/// `populations` has none of its id.
pub fn merge_population(
    populations: &mut Vec<DashboardPopulation>,
    date: Scalar,
    snapshot: &FCTPopulation,
)
    ensures
        population_views(final(populations)@) == populations_with(
            population_views(old(populations)@),
            date,
            snapshot@,
        ),
{
    let i = find_population(populations, snapshot.population_id);
    if i == populations.len() {
        populations.push(
            DashboardPopulation::new(snapshot.population_id, snapshot.pop_name.as_str()),
        );
    }
    let ghost have = populations@;
    populations[i].append(date, snapshot);
    proof {
        let before = population_views(old(populations)@);
        let have_views = if i < old(populations)@.len() {
            before
        } else {
            before.push(PopulationSeries::empty(snapshot@.population_id, snapshot@.pop_name))
        };
        assert(population_views(have) =~= have_views);
        assert(population_views(populations@) =~= have_views.update(
            i as int,
            have_views[i as int].with_snapshot(date, snapshot@),
        ));
    }
}

/// The series of one game: its own and those of its populations.
#[derive(Clone, Debug, PartialEq)]
pub struct GameDashboard {
    pub game_id: u32,
    pub game_name: String,
    pub fields: Vec<DashboardField>,
    pub populations: Vec<DashboardPopulation>,
}

impl View for GameDashboard {
    type V = GameSeries;

    open spec fn view(&self) -> GameSeries {
        GameSeries {
            game_id: self.game_id,
            game_name: self.game_name@,
            fields: field_views(self.fields@),
            populations: population_views(self.populations@),
        }
    }
}

/// The views of a list of games.
pub open spec fn game_views(games: Seq<GameDashboard>) -> Seq<GameSeries> {
    games.map_values(|g: GameDashboard| g@)
}

impl GameDashboard {
    /// A game without series or populations.
    pub fn new(game_id: u32, game_name: &str) -> (g: GameDashboard)
        ensures
            g@ == GameSeries::empty(game_id, game_name@),
    {
        let g = GameDashboard {
            game_id,
            game_name: game_name.to_owned(),
            fields: Vec::new(),
            populations: Vec::new(),
        };
        proof {
            assert(field_views(g.fields@) =~= Seq::<Series>::empty());
            assert(population_views(g.populations@) =~= Seq::<PopulationSeries>::empty());
        }
        g
    }

    /// Merges the race of a snapshot, observed at game time `date`, into
    /// the game's own series: a point for each tracked metric if the
    /// snapshot has the race, nothing if it has not.
    pub fn append_race(&mut self, date: Scalar, race: &Option<FCTRace>)
        ensures
            final(self)@ == (GameSeries {
                fields: fields_with_points(old(self)@.fields, race_points(date, *race)),
                ..old(self)@
            }),
    {
        let ghost points = race_points(date, *race);
        if let Some(r) = race {
            let mut i: usize = 0;
            proof {
                assert(points.subrange(0, 0) =~= Seq::<NamedPoint>::empty());
            }
            while i < RACE_METRIC_COUNT
                invariant
                    i <= RACE_METRIC_COUNT,
                    *race == Some(*r),
                    points == race_points(date, *race),
                    self@ == (GameSeries {
                        fields: fields_with_points(old(self)@.fields, points.subrange(0, i as int)),
                        ..old(self)@
                    }),
                decreases RACE_METRIC_COUNT - i,
            {
                let p = HistoricalValue { x: date, y: race_metric_value(r, i) };
                append_point(&mut self.fields, race_metric_label(i), p);
                proof {
                    let next = points.subrange(0, i + 1);
                    assert(next.drop_last() =~= points.subrange(0, i as int));
                    assert(next.last() == points[i as int]);
                }
                i += 1;
            }
            proof {
                assert(points.subrange(0, RACE_METRIC_COUNT as int) =~= points);
            }
        }
    }

    /// Merges a snapshot of the game: the race's metrics, then each
    /// population in turn. The game's name stays as it is.
    pub fn append(&mut self, snapshot: &AuroraGameData)
        ensures
            final(self)@ == old(self)@.with_snapshot(snapshot@),
    {
        let date = snapshot.game.game_time;
        self.append_race(date, &snapshot.race);
        let ghost raced = self@;
        let ghost all = snapshot@.populations;
        let mut i: usize = 0;
        proof {
            assert(all.subrange(0, 0) =~= Seq::empty());
        }
        while i < snapshot.populations.len()
            invariant
                i <= snapshot.populations.len(),
                all == snapshot@.populations,
                date == snapshot@.game_time,
                self@ == (GameSeries {
                    populations: populations_with_all(
                        raced.populations,
                        date,
                        all.subrange(0, i as int),
                    ),
                    ..raced
                }),
            decreases snapshot.populations.len() - i,
        {
            merge_population(&mut self.populations, date, &snapshot.populations[i]);
            proof {
                let next = all.subrange(0, i + 1);
                assert(next.drop_last() =~= all.subrange(0, i as int));
                assert(next.last() == snapshot.populations[i as int]@);
            }
            i += 1;
        }
        proof {
            assert(all.subrange(0, all.len() as int) =~= all);
        }
    }
}

/// Finds the game with the given id: its position in `games`, or the
/// length of `games` if there is none.
pub fn find_game(games: &Vec<GameDashboard>, game_id: u32) -> (i: usize)
    ensures
        i == game_position(game_views(games@), game_id),
        i <= games.len(),
        i < games.len() ==> games[i as int].game_id == game_id,
        forall|j: int| 0 <= j < i ==> games[j].game_id != game_id,
{
    let mut i: usize = 0;
    while i < games.len() && games[i].game_id != game_id
        invariant
            i <= games.len(),
            forall|j: int| 0 <= j < i ==> games[j].game_id != game_id,
        decreases games.len() - i,
    {
        i += 1;
    }
    proof {
        let views = game_views(games@);
        assert forall|j: int| 0 <= j < i implies !is_game(game_id)(#[trigger] views[j]) by {
            assert(views[j] == games[j]@);
        }
        lemma_first_position_is(views, is_game(game_id), i as int);
    }
    i
}

/// Merges a snapshot of one game. The game is made first, under the
/// snapshot's name, if `games` has none of its id.
pub fn merge_game(games: &mut Vec<GameDashboard>, snapshot: &AuroraGameData)
    ensures
        game_views(final(games)@) == games_with(game_views(old(games)@), snapshot@),
{
    let i = find_game(games, snapshot.game.game_id);
    if i == games.len() {
        games.push(GameDashboard::new(snapshot.game.game_id, snapshot.game.game_name.as_str()));
    }
    let ghost have = games@;
    games[i].append(snapshot);
    proof {
        let before = game_views(old(games)@);
        let have_views = if i < old(games)@.len() {
            before
        } else {
            before.push(GameSeries::empty(snapshot@.game_id, snapshot@.game_name))
        };
        assert(game_views(have) =~= have_views);
        assert(game_views(games@) =~= have_views.update(
            i as int,
            have_views[i as int].with_snapshot(snapshot@),
        ));
    }
}

/// The dashboard: every game that was seen, in order of first
/// appearance.
#[derive(Clone, Debug, PartialEq)]
pub struct Dashboard {
    pub games: Vec<GameDashboard>,
}

impl View for Dashboard {
    type V = TimeSeriesModel;

    open spec fn view(&self) -> TimeSeriesModel {
        TimeSeriesModel { games: game_views(self.games@) }
    }
}

/// The views of a log of snapshots.
pub open spec fn snapshot_views(log: Seq<AuroraData>) -> Seq<Snapshot> {
    log.map_values(|s: AuroraData| s@)
}

impl Dashboard {
    /// The dashboard that has seen nothing.
    pub fn new() -> (d: Dashboard)
        ensures
            d@ == TimeSeriesModel::empty(),
            d@.well_formed(),
    {
        let d = Dashboard { games: Vec::new() };
        proof {
            assert(game_views(d.games@) =~= Seq::<GameSeries>::empty());
        }
        d
    }

    /// Merges a snapshot: each of its games in turn.
    ///
    /// Every series is afterwards what it was, with the points arrived
    /// that the snapshot brings to it. Nothing that the dashboard has is
    /// taken away or renamed, no entry is made for a key that has one,
    /// and series that were sorted by time are so afterwards.
    pub fn append(&mut self, adata: &AuroraData)
        ensures
            final(self)@ == old(self)@.with_snapshot(adata@),
            forall|game_id: u32, name: Seq<char>| #[trigger]
                final(self)@.game_history(game_id, name) == arrived(
                    old(self)@.game_history(game_id, name),
                    adata@.game_points(game_id, name),
                ),
            forall|game_id: u32, population_id: u32, name: Seq<char>| #[trigger]
                final(self)@.population_history(game_id, population_id, name) == arrived(
                    old(self)@.population_history(game_id, population_id, name),
                    adata@.population_points(game_id, population_id, name),
                ),
            old(self)@.grows_to(final(self)@),
            old(self)@.in_order() ==> final(self)@.in_order(),
            old(self)@.keys_distinct() ==> final(self)@.keys_distinct(),
    {
        let ghost all = adata@.games;
        let mut i: usize = 0;
        proof {
            assert(all.subrange(0, 0) =~= Seq::empty());
        }
        while i < adata.games.len()
            invariant
                i <= adata.games.len(),
                all == adata@.games,
                self@.games == games_with_all(old(self)@.games, all.subrange(0, i as int)),
            decreases adata.games.len() - i,
        {
            merge_game(&mut self.games, &adata.games[i]);
            proof {
                let next = all.subrange(0, i + 1);
                assert(next.drop_last() =~= all.subrange(0, i as int));
                assert(next.last() == adata.games[i as int]@);
            }
            i += 1;
        }
        proof {
            assert(all.subrange(0, all.len() as int) =~= all);
            lemma_append_keeps_keys(old(self)@, adata@);
            lemma_append_keeps_well_formed(old(self)@, adata@);
            let before = old(self)@;
            let after = before.with_snapshot(adata@);
            assert forall|game_id: u32, name: Seq<char>| #[trigger]
                after.game_history(game_id, name) == arrived(
                    before.game_history(game_id, name),
                    adata@.game_points(game_id, name),
                ) by {
                lemma_snapshot_arrives(before, adata@, game_id, 0, name);
            }
            assert forall|game_id: u32, population_id: u32, name: Seq<char>| #[trigger]
                after.population_history(game_id, population_id, name) == arrived(
                    before.population_history(game_id, population_id, name),
                    adata@.population_points(game_id, population_id, name),
                ) by {
                lemma_snapshot_arrives(before, adata@, game_id, population_id, name);
            }
            if old(self)@.in_order() {
                lemma_append_keeps_order(old(self)@, adata@);
            }
        }
    }

    /// Replays a log of snapshots from nothing: the snapshots are merged
    /// one by one, first to last. Every series of the result is sorted
    /// by time.
    pub fn rebuild(log: &Vec<AuroraData>) -> (d: Dashboard)
        ensures
            d@ == rebuilt(snapshot_views(log@)),
            d@.well_formed(),
    {
        let ghost all = snapshot_views(log@);
        let mut d = Dashboard::new();
        let mut i: usize = 0;
        proof {
            assert(all.subrange(0, 0) =~= Seq::empty());
        }
        while i < log.len()
            invariant
                i <= log.len(),
                all == snapshot_views(log@),
                d@ == rebuilt(all.subrange(0, i as int)),
            decreases log.len() - i,
        {
            d.append(&log[i]);
            proof {
                let next = all.subrange(0, i + 1);
                assert(next.drop_last() =~= all.subrange(0, i as int));
                assert(next.last() == log[i as int]@);
            }
            i += 1;
        }
        proof {
            assert(all.subrange(0, all.len() as int) =~= all);
            lemma_rebuilt_well_formed(all);
        }
        d
    }

    /// Adds the point `(date, value)` to the series of `pop` called
    /// `fieldname`, which is made first if `pop` has none of that name.
    pub fn append_field(pop: &mut DashboardPopulation, date: Scalar, fieldname: &str, value: Scalar)
        ensures
            final(pop)@ == old(pop)@.with_point(fieldname@, HistoricalValue { x: date, y: value }),
    {
        append_point(&mut pop.fields, fieldname, HistoricalValue { x: date, y: value });
    }
}

/// Why a log could not be replayed.
#[derive(Debug, PartialEq, Eq)]
pub enum DbError {
    /// The line with this number, counted from 0, is no snapshot.
    ParseError { line: usize },
}

/// The test for a line of a log that could not be read as a snapshot.
pub open spec fn is_unreadable() -> spec_fn(Option<AuroraData>) -> bool {
    |line: Option<AuroraData>| line is None
}

/// The snapshots of the lines of a log, where every line could be read.
pub open spec fn snapshots_of(lines: Seq<Option<AuroraData>>) -> Seq<Snapshot> {
    lines.map_values(|line: Option<AuroraData>| line->Some_0@)
}

/// Builds dashboards from logs of snapshots.
#[derive(Debug)]
pub struct DashboardDb {}

impl DashboardDb {
    /// Replays the lines of a log from nothing. A line holds the
    /// snapshot that was read from it, or nothing if it could not be
    /// read as one.
    ///
    /// One unreadable line fails the whole replay: no line is skipped.
    /// The error names the first such line.
    pub fn load_aurora_dump(lines: &Vec<Option<AuroraData>>) -> (r: Result<Dashboard, DbError>)
        ensures
            r is Ok <==> first_position(lines@, is_unreadable()) == lines.len(),
            r matches Ok(d) ==> d@ == rebuilt(snapshots_of(lines@)) && d@.well_formed(),
            r matches Err(e) ==> e == (DbError::ParseError {
                line: first_position(lines@, is_unreadable()) as usize,
            }),
    {
        let ghost all = snapshots_of(lines@);
        let mut d = Dashboard::new();
        let mut i: usize = 0;
        proof {
            assert(all.subrange(0, 0) =~= Seq::empty());
        }
        while i < lines.len()
            invariant
                i <= lines.len(),
                all == snapshots_of(lines@),
                forall|j: int| 0 <= j < i ==> !is_unreadable()(#[trigger] lines@[j]),
                d@ == rebuilt(all.subrange(0, i as int)),
            decreases lines.len() - i,
        {
            match &lines[i] {
                Some(snapshot) => {
                    d.append(snapshot);
                    proof {
                        let next = all.subrange(0, i + 1);
                        assert(next.drop_last() =~= all.subrange(0, i as int));
                        assert(next.last() == snapshot@);
                    }
                },
                None => {
                    proof {
                        lemma_first_position_is(lines@, is_unreadable(), i as int);
                    }
                    return Err(DbError::ParseError { line: i });
                },
            }
            i += 1;
        }
        proof {
            assert(all.subrange(0, all.len() as int) =~= all);
            lemma_first_position_is(lines@, is_unreadable(), lines.len() as int);
            lemma_rebuilt_well_formed(all);
        }
        Ok(d)
    }
}

} // verus!
