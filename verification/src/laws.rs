//! What holds of every dashboard, whatever the snapshots.
//!
//! - Keys are never removed, and games and populations keep the name
//!   they were made with: [`lemma_append_keeps_keys`], [`lemma_key_stays`].
//! - Series stay sorted by time: [`lemma_append_keeps_order`],
//!   [`lemma_rebuilt_in_order`].
//! - No key gets a second entry: [`lemma_append_keeps_well_formed`],
//!   [`lemma_rebuilt_well_formed`].
//! - Replaying a log is merging its snapshots one by one:
//!   [`lemma_rebuilt_is_incremental`], [`lemma_log_in_parts`].
//! - Where there is nothing to merge, nothing changes:
//!   [`lemma_nothing_to_merge`].
//!
//! The lemmas without `pub` are the steps of these, one for each level
//! of the dashboard: a series list, a population list, a game list.

use crate::aurora_db::{GameSnapshot, PopulationSnapshot, Snapshot};
use crate::dashboard::HistoricalValue;
use crate::model::{
    field_position, fields_with_point, fields_with_points, first_position, game_position,
    games_with, games_with_all, has_population, has_series, is_game, is_named, is_population,
    lemma_first_position, lemma_first_position_is, population_position,
    populations_with, populations_with_all, rebuilt, GameSeries, NamedPoint, PopulationSeries,
    Series, TimeSeriesModel,
};
use crate::scalar::Scalar;
use crate::series::{lemma_in_time_order_sorted, sorted_by_time};
use vstd::prelude::*;

verus! {

/// A list that grows behind, and whose entries keep answering `hit` as
/// they did, keeps its first hit where it was.
proof fn lemma_first_position_grown<A>(s: Seq<A>, t: Seq<A>, hit: spec_fn(A) -> bool)
    requires
        s.len() <= t.len(),
        forall|j: int| 0 <= j < s.len() ==> hit(#[trigger] t[j]) == hit(s[j]),
    ensures
        first_position(s, hit) < s.len() ==> first_position(t, hit) == first_position(s, hit),
        first_position(s, hit) == s.len() ==> first_position(t, hit) >= s.len(),
{
    lemma_first_position(s, hit);
    lemma_first_position(t, hit);
    let i = first_position(s, hit);
    let k = first_position(t, hit);
    if i < s.len() {
        assert(hit(t[i]) == hit(s[i]));
        assert forall|j: int| 0 <= j < i implies !hit(#[trigger] t[j]) by {
            assert(hit(t[j]) == hit(s[j]));
        }
        lemma_first_position_is(t, hit, i);
    } else if k < s.len() {
        assert(hit(t[k]) == hit(s[k]));
    }
}

/// `after` has the series of `before`, each in its place and under its
/// name, and perhaps more behind them.
pub open spec fn fields_grow(before: Seq<Series>, after: Seq<Series>) -> bool {
    &&& before.len() <= after.len()
    &&& forall|j: int| 0 <= j < before.len() ==> (#[trigger] after[j]).name == before[j].name
}

impl PopulationSeries {
    /// `later` is this population, with its id and name, and has its
    /// series.
    pub open spec fn grows_to(self, later: PopulationSeries) -> bool {
        &&& later.population_id == self.population_id
        &&& later.population_name == self.population_name
        &&& fields_grow(self.fields, later.fields)
    }
}

/// `after` has the populations of `before`, each in its place, and
/// perhaps more behind them.
pub open spec fn populations_grow(before: Seq<PopulationSeries>, after: Seq<PopulationSeries>) -> bool {
    &&& before.len() <= after.len()
    &&& forall|j: int| 0 <= j < before.len() ==> before[j].grows_to(#[trigger] after[j])
}

impl GameSeries {
    /// `later` is this game, with its id and name, and has its series
    /// and populations.
    pub open spec fn grows_to(self, later: GameSeries) -> bool {
        &&& later.game_id == self.game_id
        &&& later.game_name == self.game_name
        &&& fields_grow(self.fields, later.fields)
        &&& populations_grow(self.populations, later.populations)
    }
}

/// `after` has the games of `before`, each in its place, and perhaps
/// more behind them.
pub open spec fn games_grow(before: Seq<GameSeries>, after: Seq<GameSeries>) -> bool {
    &&& before.len() <= after.len()
    &&& forall|j: int| 0 <= j < before.len() ==> before[j].grows_to(#[trigger] after[j])
}

impl TimeSeriesModel {
    /// `later` has every game, population and series of this dashboard,
    /// each in its place and under its name.
    pub open spec fn grows_to(self, later: TimeSeriesModel) -> bool {
        games_grow(self.games, later.games)
    }
}

/// Growth of series lists goes through a list in between.
proof fn lemma_fields_grow_chain(a: Seq<Series>, b: Seq<Series>, c: Seq<Series>)
    requires
        fields_grow(a, b),
        fields_grow(b, c),
    ensures
        fields_grow(a, c),
{
    assert forall|j: int| 0 <= j < a.len() implies (#[trigger] c[j]).name == a[j].name by {
        assert(b[j].name == a[j].name);
    }
}

/// Growth of population lists goes through a list in between.
proof fn lemma_populations_grow_chain(
    a: Seq<PopulationSeries>,
    b: Seq<PopulationSeries>,
    c: Seq<PopulationSeries>,
)
    requires
        populations_grow(a, b),
        populations_grow(b, c),
    ensures
        populations_grow(a, c),
{
    assert forall|j: int| 0 <= j < a.len() implies a[j].grows_to(#[trigger] c[j]) by {
        assert(a[j].grows_to(b[j]));
        assert(b[j].grows_to(c[j]));
        lemma_fields_grow_chain(a[j].fields, b[j].fields, c[j].fields);
    }
}

/// Growth of game lists goes through a list in between.
proof fn lemma_games_grow_chain(a: Seq<GameSeries>, b: Seq<GameSeries>, c: Seq<GameSeries>)
    requires
        games_grow(a, b),
        games_grow(b, c),
    ensures
        games_grow(a, c),
{
    assert forall|j: int| 0 <= j < a.len() implies a[j].grows_to(#[trigger] c[j]) by {
        assert(a[j].grows_to(b[j]));
        assert(b[j].grows_to(c[j]));
        lemma_fields_grow_chain(a[j].fields, b[j].fields, c[j].fields);
        lemma_populations_grow_chain(a[j].populations, b[j].populations, c[j].populations);
    }
}

/// A point that arrives takes no series away and renames none.
proof fn lemma_point_grows(fields: Seq<Series>, name: Seq<char>, p: HistoricalValue)
    ensures
        fields_grow(fields, fields_with_point(fields, name, p)),
{
    lemma_first_position(fields, is_named(name));
}

/// Points that arrive take no series away and rename none.
proof fn lemma_points_grow(fields: Seq<Series>, points: Seq<NamedPoint>)
    ensures
        fields_grow(fields, fields_with_points(fields, points)),
    decreases points.len(),
{
    if points.len() > 0 {
        let mid = fields_with_points(fields, points.drop_last());
        lemma_points_grow(fields, points.drop_last());
        lemma_point_grows(mid, points.last().name, points.last().point);
        lemma_fields_grow_chain(fields, mid, fields_with_points(fields, points));
    }
}

/// Every list of populations grows to itself.
proof fn lemma_populations_grow_self(populations: Seq<PopulationSeries>)
    ensures
        populations_grow(populations, populations),
{
}

/// Merging a population takes no population away, and no series from
/// any.
proof fn lemma_population_grows(
    populations: Seq<PopulationSeries>,
    date: Scalar,
    snapshot: PopulationSnapshot,
)
    ensures
        populations_grow(populations, populations_with(populations, date, snapshot)),
{
    let hit = is_population(snapshot.population_id);
    lemma_first_position(populations, hit);
    let i = population_position(populations, snapshot.population_id);
    let have = if i < populations.len() {
        populations
    } else {
        populations.push(PopulationSeries::empty(snapshot.population_id, snapshot.pop_name))
    };
    let after = populations_with(populations, date, snapshot);
    lemma_points_grow(have[i].fields, crate::model::population_points(date, snapshot));
    assert forall|j: int| 0 <= j < populations.len() implies populations[j].grows_to(
        #[trigger] after[j],
    ) by {
        if j != i {
            assert(after[j] == populations[j]);
        }
    }
}

/// Merging populations takes no population away, and no series from
/// any.
proof fn lemma_populations_grow(
    populations: Seq<PopulationSeries>,
    date: Scalar,
    snapshots: Seq<PopulationSnapshot>,
)
    ensures
        populations_grow(populations, populations_with_all(populations, date, snapshots)),
    decreases snapshots.len(),
{
    if snapshots.len() > 0 {
        let mid = populations_with_all(populations, date, snapshots.drop_last());
        lemma_populations_grow(populations, date, snapshots.drop_last());
        lemma_population_grows(mid, date, snapshots.last());
        lemma_populations_grow_chain(
            populations,
            mid,
            populations_with_all(populations, date, snapshots),
        );
    } else {
        lemma_populations_grow_self(populations);
    }
}

/// Merging a snapshot into a game leaves its id and name, and takes no
/// series or population away.
proof fn lemma_game_snapshot_grows(game: GameSeries, snapshot: GameSnapshot)
    ensures
        game.grows_to(game.with_snapshot(snapshot)),
{
    lemma_points_grow(game.fields, crate::model::race_points(snapshot.game_time, snapshot.race));
    lemma_populations_grow(game.populations, snapshot.game_time, snapshot.populations);
}

/// Merging a game takes no game away, and nothing from any.
proof fn lemma_game_grows(games: Seq<GameSeries>, snapshot: GameSnapshot)
    ensures
        games_grow(games, games_with(games, snapshot)),
{
    let hit = is_game(snapshot.game_id);
    lemma_first_position(games, hit);
    let i = game_position(games, snapshot.game_id);
    let have = if i < games.len() {
        games
    } else {
        games.push(GameSeries::empty(snapshot.game_id, snapshot.game_name))
    };
    let after = games_with(games, snapshot);
    lemma_game_snapshot_grows(have[i], snapshot);
    assert forall|j: int| 0 <= j < games.len() implies games[j].grows_to(#[trigger] after[j]) by {
        if j != i {
            assert(after[j] == games[j]);
            lemma_populations_grow_self(games[j].populations);
        }
    }
}

/// Merging games takes no game away, and nothing from any.
proof fn lemma_games_grow(games: Seq<GameSeries>, snapshots: Seq<GameSnapshot>)
    ensures
        games_grow(games, games_with_all(games, snapshots)),
    decreases snapshots.len(),
{
    if snapshots.len() > 0 {
        let mid = games_with_all(games, snapshots.drop_last());
        lemma_games_grow(games, snapshots.drop_last());
        lemma_game_grows(mid, snapshots.last());
        lemma_games_grow_chain(games, mid, games_with_all(games, snapshots));
    } else {
        assert forall|j: int| 0 <= j < games.len() implies games[j].grows_to(#[trigger] games[j]) by {
            lemma_populations_grow_self(games[j].populations);
        }
    }
}

/// Keys are never removed: after a snapshot has been merged the
/// dashboard has every game, population and series that it had, each in
/// its place and under the name it had, whether or not the snapshot
/// mentions it.
pub proof fn lemma_append_keeps_keys(model: TimeSeriesModel, snapshot: Snapshot)
    ensures
        model.grows_to(model.with_snapshot(snapshot)),
{
    lemma_games_grow(model.games, snapshot.games);
}

/// Keys are never removed, however many snapshots follow.
pub proof fn lemma_log_keeps_keys(model: TimeSeriesModel, log: Seq<Snapshot>)
    ensures
        model.grows_to(model.with_log(log)),
    decreases log.len(),
{
    if log.len() > 0 {
        let mid = model.with_log(log.drop_last());
        lemma_log_keeps_keys(model, log.drop_last());
        lemma_append_keeps_keys(mid, log.last());
        lemma_games_grow_chain(model.games, mid.games, model.with_log(log).games);
    } else {
        lemma_games_grow(model.games, Seq::empty());
    }
}

/// In a list of series that has grown, a name that was found is found
/// in the same place.
proof fn lemma_grown_fields_keep(before: Seq<Series>, after: Seq<Series>, name: Seq<char>)
    requires
        fields_grow(before, after),
        has_series(before, name),
    ensures
        has_series(after, name),
        field_position(after, name) == field_position(before, name),
{
    assert forall|j: int| 0 <= j < before.len() implies is_named(name)(#[trigger] after[j])
        == is_named(name)(before[j]) by {
        assert(after[j].name == before[j].name);
    }
    lemma_first_position_grown(before, after, is_named(name));
}

/// In a list of populations that has grown, an id that was found is
/// found in the same place, and the population there has grown.
proof fn lemma_grown_populations_keep(
    before: Seq<PopulationSeries>,
    after: Seq<PopulationSeries>,
    population_id: u32,
)
    requires
        populations_grow(before, after),
        has_population(before, population_id),
    ensures
        has_population(after, population_id),
        population_position(after, population_id) == population_position(before, population_id),
        before[population_position(before, population_id)].grows_to(
            after[population_position(before, population_id)],
        ),
{
    let hit = is_population(population_id);
    assert forall|j: int| 0 <= j < before.len() implies hit(#[trigger] after[j]) == hit(before[j]) by {
        assert(before[j].grows_to(after[j]));
    }
    lemma_first_position_grown(before, after, hit);
    lemma_first_position(before, hit);
    assert(before[first_position(before, hit)].grows_to(after[first_position(before, hit)]));
}

/// In a list of games that has grown, an id that was found is found in
/// the same place, and the game there has grown.
proof fn lemma_grown_games_keep(before: Seq<GameSeries>, after: Seq<GameSeries>, game_id: u32)
    requires
        games_grow(before, after),
        game_position(before, game_id) < before.len(),
    ensures
        game_position(after, game_id) == game_position(before, game_id),
        before[game_position(before, game_id)].grows_to(after[game_position(before, game_id)]),
{
    let hit = is_game(game_id);
    assert forall|j: int| 0 <= j < before.len() implies hit(#[trigger] after[j]) == hit(before[j]) by {
        assert(before[j].grows_to(after[j]));
    }
    lemma_first_position_grown(before, after, hit);
    lemma_first_position(before, hit);
    assert(before[first_position(before, hit)].grows_to(after[first_position(before, hit)]));
}

/// What a dashboard that has grown still has: every game under its
/// name, every population under its name, and every series.
pub proof fn lemma_grown_keeps(
    before: TimeSeriesModel,
    after: TimeSeriesModel,
    game_id: u32,
    population_id: u32,
    name: Seq<char>,
)
    requires
        before.grows_to(after),
    ensures
        before.has_game(game_id) ==> after.has_game(game_id) && after.game(game_id).game_name
            == before.game(game_id).game_name,
        before.has_game_series(game_id, name) ==> after.has_game_series(game_id, name),
        before.has_population(game_id, population_id) ==> after.has_population(
            game_id,
            population_id,
        ) && after.populations(game_id)[population_position(
            after.populations(game_id),
            population_id,
        )].population_name == before.populations(game_id)[population_position(
            before.populations(game_id),
            population_id,
        )].population_name,
        before.has_population_series(game_id, population_id, name)
            ==> after.has_population_series(game_id, population_id, name),
{
    if before.has_game(game_id) {
        lemma_grown_games_keep(before.games, after.games, game_id);
        let old_game = before.game(game_id);
        let new_game = after.game(game_id);
        if has_series(old_game.fields, name) {
            lemma_grown_fields_keep(old_game.fields, new_game.fields, name);
        }
        if has_population(old_game.populations, population_id) {
            lemma_grown_populations_keep(old_game.populations, new_game.populations, population_id);
            let i = population_position(old_game.populations, population_id);
            if has_series(old_game.populations[i].fields, name) {
                lemma_grown_fields_keep(
                    old_game.populations[i].fields,
                    new_game.populations[i].fields,
                    name,
                );
            }
        }
    } else {
        lemma_first_position(Seq::<Series>::empty(), is_named(name));
        lemma_first_position(Seq::<PopulationSeries>::empty(), is_population(population_id));
    }
}

/// A key once made stays: whatever snapshots follow, a game, a
/// population or a series that the dashboard has is still there, and
/// games and populations still carry the name they were made with.
pub proof fn lemma_key_stays(
    model: TimeSeriesModel,
    log: Seq<Snapshot>,
    game_id: u32,
    population_id: u32,
    name: Seq<char>,
)
    ensures
        model.has_game(game_id) ==> model.with_log(log).has_game(game_id) && model.with_log(
            log,
        ).game(game_id).game_name == model.game(game_id).game_name,
        model.has_game_series(game_id, name) ==> model.with_log(log).has_game_series(game_id, name),
        model.has_population(game_id, population_id) ==> model.with_log(log).has_population(
            game_id,
            population_id,
        ),
        model.has_population_series(game_id, population_id, name) ==> model.with_log(
            log,
        ).has_population_series(game_id, population_id, name),
{
    lemma_log_keeps_keys(model, log);
    lemma_grown_keeps(model, model.with_log(log), game_id, population_id, name);
}

/// Every series of `fields` is sorted by time.
pub open spec fn fields_in_order(fields: Seq<Series>) -> bool {
    forall|j: int| 0 <= j < fields.len() ==> sorted_by_time((#[trigger] fields[j]).historical)
}

/// Every series of every population of `populations` is sorted by time.
pub open spec fn populations_in_order(populations: Seq<PopulationSeries>) -> bool {
    forall|j: int| 0 <= j < populations.len() ==> fields_in_order((#[trigger] populations[j]).fields)
}

impl GameSeries {
    /// Every series of the game and of its populations is sorted by
    /// time.
    pub open spec fn in_order(self) -> bool {
        fields_in_order(self.fields) && populations_in_order(self.populations)
    }
}

impl TimeSeriesModel {
    /// Every series of the dashboard is sorted by time.
    pub open spec fn in_order(self) -> bool {
        forall|j: int| 0 <= j < self.games.len() ==> (#[trigger] self.games[j]).in_order()
    }
}

/// A point that arrives leaves sorted series sorted.
proof fn lemma_point_in_order(fields: Seq<Series>, name: Seq<char>, p: HistoricalValue)
    requires
        fields_in_order(fields),
    ensures
        fields_in_order(fields_with_point(fields, name, p)),
{
    lemma_first_position(fields, is_named(name));
    let i = field_position(fields, name);
    let have = if i < fields.len() {
        fields
    } else {
        fields.push(Series::empty(name))
    };
    let after = fields_with_point(fields, name, p);
    lemma_in_time_order_sorted(have[i].historical.push(p));
    assert forall|j: int| 0 <= j < after.len() implies sorted_by_time(
        (#[trigger] after[j]).historical,
    ) by {
        if j != i {
            assert(after[j] == fields[j]);
        }
    }
}

/// Points that arrive leave sorted series sorted.
proof fn lemma_points_in_order(fields: Seq<Series>, points: Seq<NamedPoint>)
    requires
        fields_in_order(fields),
    ensures
        fields_in_order(fields_with_points(fields, points)),
    decreases points.len(),
{
    if points.len() > 0 {
        lemma_points_in_order(fields, points.drop_last());
        lemma_point_in_order(
            fields_with_points(fields, points.drop_last()),
            points.last().name,
            points.last().point,
        );
    }
}

/// Merging a population leaves sorted series sorted.
proof fn lemma_population_in_order(
    populations: Seq<PopulationSeries>,
    date: Scalar,
    snapshot: PopulationSnapshot,
)
    requires
        populations_in_order(populations),
    ensures
        populations_in_order(populations_with(populations, date, snapshot)),
{
    lemma_first_position(populations, is_population(snapshot.population_id));
    let i = population_position(populations, snapshot.population_id);
    let have = if i < populations.len() {
        populations
    } else {
        populations.push(PopulationSeries::empty(snapshot.population_id, snapshot.pop_name))
    };
    let after = populations_with(populations, date, snapshot);
    if i < populations.len() {
        assert(fields_in_order(populations[i].fields));
    }
    lemma_points_in_order(have[i].fields, crate::model::population_points(date, snapshot));
    assert forall|j: int| 0 <= j < after.len() implies fields_in_order(
        (#[trigger] after[j]).fields,
    ) by {
        if j != i {
            assert(after[j] == populations[j]);
        }
    }
}

/// Merging populations leaves sorted series sorted.
proof fn lemma_populations_in_order(
    populations: Seq<PopulationSeries>,
    date: Scalar,
    snapshots: Seq<PopulationSnapshot>,
)
    requires
        populations_in_order(populations),
    ensures
        populations_in_order(populations_with_all(populations, date, snapshots)),
    decreases snapshots.len(),
{
    if snapshots.len() > 0 {
        lemma_populations_in_order(populations, date, snapshots.drop_last());
        lemma_population_in_order(
            populations_with_all(populations, date, snapshots.drop_last()),
            date,
            snapshots.last(),
        );
    }
}

/// Merging a game leaves sorted series sorted.
proof fn lemma_game_in_order(games: Seq<GameSeries>, snapshot: GameSnapshot)
    requires
        forall|j: int| 0 <= j < games.len() ==> (#[trigger] games[j]).in_order(),
    ensures
        forall|j: int|
            0 <= j < games_with(games, snapshot).len() ==> (#[trigger] games_with(
                games,
                snapshot,
            )[j]).in_order(),
{
    lemma_first_position(games, is_game(snapshot.game_id));
    let i = game_position(games, snapshot.game_id);
    let have = if i < games.len() {
        games
    } else {
        games.push(GameSeries::empty(snapshot.game_id, snapshot.game_name))
    };
    let after = games_with(games, snapshot);
    if i < games.len() {
        assert(games[i].in_order());
    }
    lemma_points_in_order(
        have[i].fields,
        crate::model::race_points(snapshot.game_time, snapshot.race),
    );
    lemma_populations_in_order(have[i].populations, snapshot.game_time, snapshot.populations);
    assert forall|j: int| 0 <= j < after.len() implies (#[trigger] after[j]).in_order() by {
        if j != i {
            assert(after[j] == games[j]);
        }
    }
}

/// Merging games leaves sorted series sorted.
proof fn lemma_games_in_order(games: Seq<GameSeries>, snapshots: Seq<GameSnapshot>)
    requires
        forall|j: int| 0 <= j < games.len() ==> (#[trigger] games[j]).in_order(),
    ensures
        forall|j: int|
            0 <= j < games_with_all(games, snapshots).len() ==> (#[trigger] games_with_all(
                games,
                snapshots,
            )[j]).in_order(),
    decreases snapshots.len(),
{
    if snapshots.len() > 0 {
        lemma_games_in_order(games, snapshots.drop_last());
        lemma_game_in_order(games_with_all(games, snapshots.drop_last()), snapshots.last());
    }
}

/// Series stay sorted: a dashboard whose series are all sorted by time
/// has them all sorted after a snapshot has been merged.
pub proof fn lemma_append_keeps_order(model: TimeSeriesModel, snapshot: Snapshot)
    requires
        model.in_order(),
    ensures
        model.with_snapshot(snapshot).in_order(),
{
    lemma_games_in_order(model.games, snapshot.games);
}

/// Series stay sorted, however many snapshots follow.
pub proof fn lemma_log_keeps_order(model: TimeSeriesModel, log: Seq<Snapshot>)
    requires
        model.in_order(),
    ensures
        model.with_log(log).in_order(),
    decreases log.len(),
{
    if log.len() > 0 {
        lemma_log_keeps_order(model, log.drop_last());
        lemma_append_keeps_order(model.with_log(log.drop_last()), log.last());
    }
}

/// Whatever the snapshots of a log, every series of the dashboard
/// rebuilt from it is sorted by time.
pub proof fn lemma_rebuilt_in_order(log: Seq<Snapshot>)
    ensures
        rebuilt(log).in_order(),
{
    lemma_log_keeps_order(TimeSeriesModel::empty(), log);
}

/// No two series of `fields` share a name.
pub open spec fn fields_distinct(fields: Seq<Series>) -> bool {
    forall|i: int, j: int|
        0 <= i < j < fields.len() ==> (#[trigger] fields[i]).name != (#[trigger] fields[j]).name
}

/// No two populations of `populations` share an id, and no two series
/// of one population a name.
pub open spec fn populations_distinct(populations: Seq<PopulationSeries>) -> bool {
    &&& forall|i: int, j: int|
        0 <= i < j < populations.len() ==> (#[trigger] populations[i]).population_id != (
        #[trigger] populations[j]).population_id
    &&& forall|j: int|
        0 <= j < populations.len() ==> fields_distinct((#[trigger] populations[j]).fields)
}

/// No two games of `games` share an id, and within each game no two
/// populations an id and no two series of one owner a name.
pub open spec fn games_distinct(games: Seq<GameSeries>) -> bool {
    &&& forall|i: int, j: int|
        0 <= i < j < games.len() ==> (#[trigger] games[i]).game_id != (#[trigger] games[j]).game_id
    &&& forall|j: int|
        0 <= j < games.len() ==> fields_distinct((#[trigger] games[j]).fields)
            && populations_distinct(games[j].populations)
}

impl TimeSeriesModel {
    /// Every key stands for one entry: no game, no population of a
    /// game and no series of an owner is there twice.
    pub open spec fn keys_distinct(self) -> bool {
        games_distinct(self.games)
    }

    /// The dashboard is as merging snapshots leaves it: its keys are
    /// distinct and its series sorted by time.
    pub open spec fn well_formed(self) -> bool {
        self.keys_distinct() && self.in_order()
    }
}

/// A point that arrives makes no second series of a name.
proof fn lemma_point_distinct(fields: Seq<Series>, name: Seq<char>, p: HistoricalValue)
    requires
        fields_distinct(fields),
    ensures
        fields_distinct(fields_with_point(fields, name, p)),
{
    lemma_first_position(fields, is_named(name));
    let after = fields_with_point(fields, name, p);
    assert forall|i: int, j: int| 0 <= i < j < after.len() implies (#[trigger] after[i]).name != (
    #[trigger] after[j]).name by {
        if j < fields.len() {
            assert(after[i].name == fields[i].name);
            assert(after[j].name == fields[j].name);
        } else {
            assert(after[i].name == fields[i].name);
            assert(!is_named(name)(fields[i]));
        }
    }
}

/// Points that arrive make no second series of a name.
proof fn lemma_points_distinct(fields: Seq<Series>, points: Seq<NamedPoint>)
    requires
        fields_distinct(fields),
    ensures
        fields_distinct(fields_with_points(fields, points)),
    decreases points.len(),
{
    if points.len() > 0 {
        lemma_points_distinct(fields, points.drop_last());
        lemma_point_distinct(
            fields_with_points(fields, points.drop_last()),
            points.last().name,
            points.last().point,
        );
    }
}

/// Merging a population makes no second population of an id.
proof fn lemma_population_distinct(
    populations: Seq<PopulationSeries>,
    date: Scalar,
    snapshot: PopulationSnapshot,
)
    requires
        populations_distinct(populations),
    ensures
        populations_distinct(populations_with(populations, date, snapshot)),
{
    let hit = is_population(snapshot.population_id);
    lemma_first_position(populations, hit);
    let i = population_position(populations, snapshot.population_id);
    let have = if i < populations.len() {
        populations
    } else {
        populations.push(PopulationSeries::empty(snapshot.population_id, snapshot.pop_name))
    };
    let after = populations_with(populations, date, snapshot);
    if i < populations.len() {
        assert(fields_distinct(populations[i].fields));
    }
    lemma_points_distinct(have[i].fields, crate::model::population_points(date, snapshot));
    assert forall|a: int, b: int| 0 <= a < b < after.len() implies (
    #[trigger] after[a]).population_id != (#[trigger] after[b]).population_id by {
        if b < populations.len() {
            assert(after[a].population_id == populations[a].population_id);
            assert(after[b].population_id == populations[b].population_id);
        } else {
            assert(after[a].population_id == populations[a].population_id);
            assert(!hit(populations[a]));
        }
    }
    assert forall|j: int| 0 <= j < after.len() implies fields_distinct(
        (#[trigger] after[j]).fields,
    ) by {
        if j != i {
            assert(after[j] == populations[j]);
        }
    }
}

/// Merging populations makes no second population of an id.
proof fn lemma_populations_distinct(
    populations: Seq<PopulationSeries>,
    date: Scalar,
    snapshots: Seq<PopulationSnapshot>,
)
    requires
        populations_distinct(populations),
    ensures
        populations_distinct(populations_with_all(populations, date, snapshots)),
    decreases snapshots.len(),
{
    if snapshots.len() > 0 {
        lemma_populations_distinct(populations, date, snapshots.drop_last());
        lemma_population_distinct(
            populations_with_all(populations, date, snapshots.drop_last()),
            date,
            snapshots.last(),
        );
    }
}

/// Merging a game makes no second game of an id.
proof fn lemma_game_distinct(games: Seq<GameSeries>, snapshot: GameSnapshot)
    requires
        games_distinct(games),
    ensures
        games_distinct(games_with(games, snapshot)),
{
    let hit = is_game(snapshot.game_id);
    lemma_first_position(games, hit);
    let i = game_position(games, snapshot.game_id);
    let have = if i < games.len() {
        games
    } else {
        games.push(GameSeries::empty(snapshot.game_id, snapshot.game_name))
    };
    let after = games_with(games, snapshot);
    if i < games.len() {
        assert(fields_distinct(games[i].fields) && populations_distinct(games[i].populations));
    }
    lemma_points_distinct(
        have[i].fields,
        crate::model::race_points(snapshot.game_time, snapshot.race),
    );
    lemma_populations_distinct(have[i].populations, snapshot.game_time, snapshot.populations);
    assert forall|a: int, b: int| 0 <= a < b < after.len() implies (#[trigger] after[a]).game_id != (
    #[trigger] after[b]).game_id by {
        if b < games.len() {
            assert(after[a].game_id == games[a].game_id);
            assert(after[b].game_id == games[b].game_id);
        } else {
            assert(after[a].game_id == games[a].game_id);
            assert(!hit(games[a]));
        }
    }
    assert forall|j: int| 0 <= j < after.len() implies fields_distinct((#[trigger] after[j]).fields)
        && populations_distinct(after[j].populations) by {
        if j != i {
            assert(after[j] == games[j]);
        }
    }
}

/// Merging games makes no second game of an id.
proof fn lemma_games_distinct(games: Seq<GameSeries>, snapshots: Seq<GameSnapshot>)
    requires
        games_distinct(games),
    ensures
        games_distinct(games_with_all(games, snapshots)),
    decreases snapshots.len(),
{
    if snapshots.len() > 0 {
        lemma_games_distinct(games, snapshots.drop_last());
        lemma_game_distinct(games_with_all(games, snapshots.drop_last()), snapshots.last());
    }
}

/// An entry is made only for a key that has none: a dashboard whose
/// keys are distinct has distinct keys after a snapshot has been
/// merged. With the order of its series, a well-formed dashboard stays
/// well-formed.
pub proof fn lemma_append_keeps_well_formed(model: TimeSeriesModel, snapshot: Snapshot)
    ensures
        model.keys_distinct() ==> model.with_snapshot(snapshot).keys_distinct(),
        model.well_formed() ==> model.with_snapshot(snapshot).well_formed(),
{
    if model.keys_distinct() {
        lemma_games_distinct(model.games, snapshot.games);
    }
    if model.in_order() {
        lemma_append_keeps_order(model, snapshot);
    }
}

/// A dashboard rebuilt from a log is well-formed, whatever the log.
pub proof fn lemma_rebuilt_well_formed(log: Seq<Snapshot>)
    ensures
        rebuilt(log).well_formed(),
    decreases log.len(),
{
    lemma_rebuilt_in_order(log);
    if log.len() > 0 {
        lemma_rebuilt_well_formed(log.drop_last());
        lemma_append_keeps_well_formed(rebuilt(log.drop_last()), log.last());
    }
}

/// Where there is nothing to merge, nothing changes: a snapshot without
/// games leaves the dashboard as it is, and a snapshot of a game
/// without race and without populations leaves the game as it is.
pub proof fn lemma_nothing_to_merge(model: TimeSeriesModel, game: GameSeries, snapshot: GameSnapshot)
    ensures
        model.with_snapshot(Snapshot { games: Seq::empty() }) == model,
        snapshot.race is None && snapshot.populations.len() == 0 ==> game.with_snapshot(snapshot)
            == game,
{
}

/// Replaying a log from nothing gives what merging its snapshots one by
/// one gives: the empty log gives the empty dashboard, and a log with
/// one more snapshot gives the dashboard of the log with that snapshot
/// merged.
pub proof fn lemma_rebuilt_is_incremental(log: Seq<Snapshot>, snapshot: Snapshot)
    ensures
        rebuilt(Seq::empty()) == TimeSeriesModel::empty(),
        rebuilt(log.push(snapshot)) == rebuilt(log).with_snapshot(snapshot),
{
    assert(log.push(snapshot).drop_last() =~= log);
}

/// Merging a log in two parts gives what merging it whole gives.
pub proof fn lemma_log_in_parts(model: TimeSeriesModel, first: Seq<Snapshot>, second: Seq<Snapshot>)
    ensures
        model.with_log(first + second) == model.with_log(first).with_log(second),
    decreases second.len(),
{
    if second.len() == 0 {
        assert(first + second =~= first);
    } else {
        lemma_log_in_parts(model, first, second.drop_last());
        assert((first + second).drop_last() =~= first + second.drop_last());
        assert((first + second).last() == second.last());
    }
}

} // verus!
