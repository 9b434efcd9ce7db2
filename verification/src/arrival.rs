//! Where the points of a snapshot go.
//!
//! A snapshot brings points to some series and leaves the others alone.
//! The laws here say, for every series of a dashboard, what it is after
//! a snapshot: the series it was, with the points that the snapshot
//! brought to it, arrived in their order.
//!
//! - What a snapshot, and a log, does to each series:
//!   [`lemma_snapshot_arrives`], [`lemma_log_arrives`],
//!   [`lemma_rebuilt_series`].
//! - A snapshot merged twice brings its points twice:
//!   [`lemma_snapshot_twice`].
//! - Every key of a snapshot is made at first sight:
//!   [`lemma_snapshot_makes_keys`].
//! - A population brings one point for each tracked metric, zero for a
//!   metric that it lacks: [`lemma_population_brings`],
//!   [`lemma_population_gets_point`].

use crate::aurora_db::{FCTRace, GameSnapshot, PopulationSnapshot, Snapshot};
use crate::dashboard::HistoricalValue;
use crate::model::{
    field_position, fields_with_point, fields_with_points, first_position, game_position,
    games_population_points, games_race_points, games_with, games_with_all, has_population,
    has_series, history, is_game, is_named, is_population, lemma_first_position,
    lemma_first_position_is, log_game_points, log_population_points, metric_name, points_named,
    population_fields, population_points, population_position, populations_points,
    populations_with, populations_with_all, race_metric, race_metric_name, race_points, rebuilt,
    GameSeries, NamedPoint, PopulationSeries, Series, TimeSeriesModel, METRIC_COUNT,
    RACE_METRIC_COUNT,
};
use crate::scalar::Scalar;
use crate::series::{
    arrived, in_time_order, lemma_arrived_in_parts, lemma_arrived_one, lemma_arrived_points,
    lemma_in_time_order_points,
};
use vstd::prelude::*;

verus! {

/// A keyed list after one entry was found or made, and changed. The
/// entry is the first hit of `hit`, or `fresh` behind the others if
/// there is none. If the change leaves it a hit, it is found where it
/// was; and what another test finds is where it was and as it was, if
/// that test has nothing to do with the entry.
proof fn lemma_changed_entry<A>(
    s: Seq<A>,
    hit: spec_fn(A) -> bool,
    fresh: A,
    changed: A,
    other: spec_fn(A) -> bool,
)
    requires
        hit(fresh),
        hit(changed),
        !other(fresh),
        !other(changed),
        first_position(s, hit) < s.len() ==> !other(s[first_position(s, hit)]),
    ensures
        ({
            let i = first_position(s, hit);
            let have = if i < s.len() {
                s
            } else {
                s.push(fresh)
            };
            let after = have.update(i, changed);
            &&& first_position(after, hit) == i
            &&& i < after.len()
            &&& first_position(s, other) < s.len() ==> first_position(after, other)
                == first_position(s, other) && after[first_position(s, other)] == s[first_position(
                s,
                other,
            )]
            &&& first_position(s, other) == s.len() ==> first_position(after, other) == after.len()
        }),
{
    lemma_first_position(s, hit);
    lemma_first_position(s, other);
    let i = first_position(s, hit);
    let have = if i < s.len() {
        s
    } else {
        s.push(fresh)
    };
    let after = have.update(i, changed);
    assert forall|j: int| 0 <= j < i implies !hit(#[trigger] after[j]) by {
        assert(after[j] == s[j]);
    }
    lemma_first_position_is(after, hit, i);
    let k = first_position(s, other);
    if k < s.len() {
        assert(k != i);
        assert(after[k] == s[k]);
        assert forall|j: int| 0 <= j < k implies !other(#[trigger] after[j]) by {
            if j != i {
                assert(after[j] == s[j]);
            }
        }
        lemma_first_position_is(after, other, k);
    } else {
        assert forall|j: int| 0 <= j < after.len() implies !other(#[trigger] after[j]) by {
            if j != i {
                assert(after[j] == s[j]);
            }
        }
        lemma_first_position_is(after, other, after.len() as int);
    }
}

/// Where one point goes: to the end of the series of its name, which is
/// then put in time order. Every other series stays as it is, and no
/// series comes to be but the one of that name.
proof fn lemma_point_arrives(
    fields: Seq<Series>,
    name: Seq<char>,
    p: HistoricalValue,
    other: Seq<char>,
)
    ensures
        has_series(fields_with_point(fields, name, p), name),
        history(fields_with_point(fields, name, p), name) == arrived(
            history(fields, name),
            seq![p],
        ),
        other != name ==> has_series(fields_with_point(fields, name, p), other) == has_series(
            fields,
            other,
        ),
        other != name ==> history(fields_with_point(fields, name, p), other) == history(
            fields,
            other,
        ),
{
    let hit = is_named(name);
    lemma_first_position(fields, hit);
    let i = field_position(fields, name);
    let fresh = Series::empty(name);
    let have = if i < fields.len() {
        fields
    } else {
        fields.push(fresh)
    };
    let changed = have[i].with_point(p);
    lemma_arrived_one(history(fields, name), p);
    if other != name {
        lemma_changed_entry(fields, hit, fresh, changed, is_named(other));
    } else {
        lemma_changed_entry(fields, hit, fresh, changed, |f: Series| false);
    }
}

/// Where points go: each to the series of its name. A series is after
/// them what it was with the points of its name arrived.
pub proof fn lemma_points_arrive(fields: Seq<Series>, points: Seq<NamedPoint>, name: Seq<char>)
    ensures
        history(fields_with_points(fields, points), name) == arrived(
            history(fields, name),
            points_named(points, name),
        ),
        has_series(fields_with_points(fields, points), name) == (has_series(fields, name)
            || points_named(points, name).len() > 0),
    decreases points.len(),
{
    if points.len() > 0 {
        let front = points.drop_last();
        let mid = fields_with_points(fields, front);
        lemma_points_arrive(fields, front, name);
        lemma_point_arrives(mid, points.last().name, points.last().point, name);
        let last = if points.last().name == name {
            seq![points.last().point]
        } else {
            Seq::empty()
        };
        lemma_arrived_in_parts(history(fields, name), points_named(front, name), last);
        assert(points_named(front, name) + last =~= points_named(points, name));
    }
}

/// Where the points of one population go: to the series of the first
/// population of its id, which is made if there is none. The series of
/// every other population stay as they are.
proof fn lemma_population_arrives(
    populations: Seq<PopulationSeries>,
    date: Scalar,
    snapshot: PopulationSnapshot,
    population_id: u32,
    name: Seq<char>,
)
    ensures
        has_population(populations_with(populations, date, snapshot), snapshot.population_id),
        has_population(populations_with(populations, date, snapshot), population_id) == (
        has_population(populations, population_id) || population_id == snapshot.population_id),
        history(
            population_fields(populations_with(populations, date, snapshot), population_id),
            name,
        ) == arrived(
            history(population_fields(populations, population_id), name),
            if population_id == snapshot.population_id {
                points_named(population_points(date, snapshot), name)
            } else {
                Seq::empty()
            },
        ),
        has_series(
            population_fields(populations_with(populations, date, snapshot), population_id),
            name,
        ) == (has_series(population_fields(populations, population_id), name) || (population_id
            == snapshot.population_id && points_named(population_points(date, snapshot), name).len()
            > 0)),
{
    let hit = is_population(snapshot.population_id);
    lemma_first_position(populations, hit);
    let i = population_position(populations, snapshot.population_id);
    let fresh = PopulationSeries::empty(snapshot.population_id, snapshot.pop_name);
    let have = if i < populations.len() {
        populations
    } else {
        populations.push(fresh)
    };
    let changed = have[i].with_snapshot(date, snapshot);
    lemma_points_arrive(have[i].fields, population_points(date, snapshot), name);
    lemma_first_position(Seq::<Series>::empty(), is_named(name));
    if population_id != snapshot.population_id {
        lemma_changed_entry(populations, hit, fresh, changed, is_population(population_id));
    } else {
        lemma_changed_entry(populations, hit, fresh, changed, |q: PopulationSeries| false);
    }
}

/// Where the points of populations go: a series of a population is
/// after them what it was with the points arrived that the snapshots of
/// that population brought to it.
proof fn lemma_populations_arrive(
    populations: Seq<PopulationSeries>,
    date: Scalar,
    snapshots: Seq<PopulationSnapshot>,
    population_id: u32,
    name: Seq<char>,
)
    ensures
        history(
            population_fields(populations_with_all(populations, date, snapshots), population_id),
            name,
        ) == arrived(
            history(population_fields(populations, population_id), name),
            populations_points(date, snapshots, population_id, name),
        ),
        has_series(
            population_fields(populations_with_all(populations, date, snapshots), population_id),
            name,
        ) == (has_series(population_fields(populations, population_id), name)
            || populations_points(date, snapshots, population_id, name).len() > 0),
        has_population(populations_with_all(populations, date, snapshots), population_id) == (
        has_population(populations, population_id) || exists|k: int|
            0 <= k < snapshots.len() && (#[trigger] snapshots[k]).population_id == population_id),
    decreases snapshots.len(),
{
    if snapshots.len() > 0 {
        let front = snapshots.drop_last();
        let mid = populations_with_all(populations, date, front);
        lemma_populations_arrive(populations, date, front, population_id, name);
        lemma_population_arrives(mid, date, snapshots.last(), population_id, name);
        assert(snapshots.last() == snapshots[snapshots.len() - 1]);
        assert forall|k: int| 0 <= k < front.len() implies #[trigger] front[k] == snapshots[k] by {}
        if exists|k: int| 0 <= k < front.len() && (#[trigger] front[k]).population_id == population_id {
            let k = choose|k: int|
                0 <= k < front.len() && (#[trigger] front[k]).population_id == population_id;
            assert(snapshots[k].population_id == population_id);
        }
        if exists|k: int|
            0 <= k < snapshots.len() && (#[trigger] snapshots[k]).population_id == population_id {
            let k = choose|k: int|
                0 <= k < snapshots.len() && (#[trigger] snapshots[k]).population_id
                    == population_id;
            if k < front.len() {
                assert(front[k].population_id == population_id);
            }
        }
        let last = if population_id == snapshots.last().population_id {
            points_named(population_points(date, snapshots.last()), name)
        } else {
            Seq::empty()
        };
        let before = populations_points(date, front, population_id, name);
        lemma_arrived_in_parts(
            history(population_fields(populations, population_id), name),
            before,
            last,
        );
        assert(before + last =~= populations_points(date, snapshots, population_id, name));
    }
}

/// Where the points of one game go: to the first game of its id, which
/// is made if there is none. Every other game stays as it is.
proof fn lemma_game_arrives(
    games: Seq<GameSeries>,
    snapshot: GameSnapshot,
    game_id: u32,
    population_id: u32,
    name: Seq<char>,
)
    ensures
        ({
            let before = TimeSeriesModel { games };
            let after = TimeSeriesModel { games: games_with(games, snapshot) };
            let mine = game_id == snapshot.game_id;
            let race = if mine {
                points_named(race_points(snapshot.game_time, snapshot.race), name)
            } else {
                Seq::empty()
            };
            let settled = if mine {
                populations_points(snapshot.game_time, snapshot.populations, population_id, name)
            } else {
                Seq::empty()
            };
            &&& after.has_game(snapshot.game_id)
            &&& after.has_game(game_id) == (before.has_game(game_id) || mine)
            &&& after.game_history(game_id, name) == arrived(
                before.game_history(game_id, name),
                race,
            )
            &&& after.has_game_series(game_id, name) == (before.has_game_series(game_id, name)
                || race.len() > 0)
            &&& after.population_history(game_id, population_id, name) == arrived(
                before.population_history(game_id, population_id, name),
                settled,
            )
            &&& after.has_population_series(game_id, population_id, name) == (
            before.has_population_series(game_id, population_id, name) || settled.len() > 0)
        }),
{
    let hit = is_game(snapshot.game_id);
    lemma_first_position(games, hit);
    let i = game_position(games, snapshot.game_id);
    let fresh = GameSeries::empty(snapshot.game_id, snapshot.game_name);
    let have = if i < games.len() {
        games
    } else {
        games.push(fresh)
    };
    let changed = have[i].with_snapshot(snapshot);
    lemma_points_arrive(have[i].fields, race_points(snapshot.game_time, snapshot.race), name);
    lemma_populations_arrive(
        have[i].populations,
        snapshot.game_time,
        snapshot.populations,
        population_id,
        name,
    );
    lemma_first_position(Seq::<Series>::empty(), is_named(name));
    lemma_first_position(Seq::<PopulationSeries>::empty(), is_population(population_id));
    if game_id != snapshot.game_id {
        lemma_changed_entry(games, hit, fresh, changed, is_game(game_id));
    } else {
        lemma_changed_entry(games, hit, fresh, changed, |g: GameSeries| false);
    }
}

/// Where the points of games go: a series is after them what it was
/// with the points arrived that the snapshots of its game brought to
/// it.
proof fn lemma_games_arrive(
    games: Seq<GameSeries>,
    snapshots: Seq<GameSnapshot>,
    game_id: u32,
    population_id: u32,
    name: Seq<char>,
)
    ensures
        ({
            let before = TimeSeriesModel { games };
            let after = TimeSeriesModel { games: games_with_all(games, snapshots) };
            let race = games_race_points(snapshots, game_id, name);
            let settled = games_population_points(snapshots, game_id, population_id, name);
            &&& after.game_history(game_id, name) == arrived(
                before.game_history(game_id, name),
                race,
            )
            &&& after.has_game_series(game_id, name) == (before.has_game_series(game_id, name)
                || race.len() > 0)
            &&& after.population_history(game_id, population_id, name) == arrived(
                before.population_history(game_id, population_id, name),
                settled,
            )
            &&& after.has_population_series(game_id, population_id, name) == (
            before.has_population_series(game_id, population_id, name) || settled.len() > 0)
            &&& after.has_game(game_id) == (before.has_game(game_id) || exists|k: int|
                0 <= k < snapshots.len() && (#[trigger] snapshots[k]).game_id == game_id)
        }),
    decreases snapshots.len(),
{
    if snapshots.len() > 0 {
        let front = snapshots.drop_last();
        let last = snapshots.last();
        let before = TimeSeriesModel { games };
        let mid = games_with_all(games, front);
        lemma_games_arrive(games, front, game_id, population_id, name);
        lemma_game_arrives(mid, last, game_id, population_id, name);
        assert(snapshots.last() == snapshots[snapshots.len() - 1]);
        assert forall|k: int| 0 <= k < front.len() implies #[trigger] front[k] == snapshots[k] by {}
        if exists|k: int| 0 <= k < front.len() && (#[trigger] front[k]).game_id == game_id {
            let k = choose|k: int| 0 <= k < front.len() && (#[trigger] front[k]).game_id == game_id;
            assert(snapshots[k].game_id == game_id);
        }
        if exists|k: int| 0 <= k < snapshots.len() && (#[trigger] snapshots[k]).game_id == game_id {
            let k = choose|k: int|
                0 <= k < snapshots.len() && (#[trigger] snapshots[k]).game_id == game_id;
            if k < front.len() {
                assert(front[k].game_id == game_id);
            }
        }
        let mine = game_id == last.game_id;
        let race = if mine {
            points_named(race_points(last.game_time, last.race), name)
        } else {
            Seq::empty()
        };
        let settled = if mine {
            populations_points(last.game_time, last.populations, population_id, name)
        } else {
            Seq::empty()
        };
        let race_before = games_race_points(front, game_id, name);
        let settled_before = games_population_points(front, game_id, population_id, name);
        lemma_arrived_in_parts(before.game_history(game_id, name), race_before, race);
        lemma_arrived_in_parts(
            before.population_history(game_id, population_id, name),
            settled_before,
            settled,
        );
        assert(race_before + race =~= games_race_points(snapshots, game_id, name));
        assert(settled_before + settled =~= games_population_points(
            snapshots,
            game_id,
            population_id,
            name,
        ));
    }
}

/// What a snapshot does to a series. Every series of the dashboard, of
/// a game or of a population, is after the snapshot what it was with
/// the points arrived that the snapshot brought to it; one that got no
/// point is as it was. A series that was not there is there after the
/// snapshot if and only if it got a point.
pub proof fn lemma_snapshot_arrives(
    model: TimeSeriesModel,
    snapshot: Snapshot,
    game_id: u32,
    population_id: u32,
    name: Seq<char>,
)
    ensures
        model.with_snapshot(snapshot).game_history(game_id, name) == arrived(
            model.game_history(game_id, name),
            snapshot.game_points(game_id, name),
        ),
        model.with_snapshot(snapshot).has_game_series(game_id, name) == (model.has_game_series(
            game_id,
            name,
        ) || snapshot.game_points(game_id, name).len() > 0),
        model.with_snapshot(snapshot).population_history(game_id, population_id, name) == arrived(
            model.population_history(game_id, population_id, name),
            snapshot.population_points(game_id, population_id, name),
        ),
        model.with_snapshot(snapshot).has_population_series(game_id, population_id, name) == (
        model.has_population_series(game_id, population_id, name) || snapshot.population_points(
            game_id,
            population_id,
            name,
        ).len() > 0),
        model.with_snapshot(snapshot).has_game(game_id) == (model.has_game(game_id) || exists|
            k: int,
        |
            0 <= k < snapshot.games.len() && (#[trigger] snapshot.games[k]).game_id == game_id),
{
    lemma_games_arrive(model.games, snapshot.games, game_id, population_id, name);
}

/// What the snapshots of populations bring to a series has what each
/// snapshot of that population brings.
proof fn lemma_populations_points_hold(
    date: Scalar,
    snapshots: Seq<PopulationSnapshot>,
    k: int,
    name: Seq<char>,
)
    requires
        0 <= k < snapshots.len(),
    ensures
        populations_points(date, snapshots, snapshots[k].population_id, name).len()
            >= points_named(population_points(date, snapshots[k]), name).len(),
    decreases snapshots.len(),
{
    if k < snapshots.len() - 1 {
        let front = snapshots.drop_last();
        assert(front[k] == snapshots[k]);
        lemma_populations_points_hold(date, front, k, name);
    }
}

/// What the snapshots of games bring to a series of a population has
/// what each snapshot of that game brings.
proof fn lemma_games_points_hold(
    snapshots: Seq<GameSnapshot>,
    k: int,
    population_id: u32,
    name: Seq<char>,
)
    requires
        0 <= k < snapshots.len(),
    ensures
        games_population_points(snapshots, snapshots[k].game_id, population_id, name).len()
            >= populations_points(
            snapshots[k].game_time,
            snapshots[k].populations,
            population_id,
            name,
        ).len(),
        games_race_points(snapshots, snapshots[k].game_id, name).len() >= points_named(
            race_points(snapshots[k].game_time, snapshots[k].race),
            name,
        ).len(),
    decreases snapshots.len(),
{
    if k < snapshots.len() - 1 {
        let front = snapshots.drop_last();
        assert(front[k] == snapshots[k]);
        lemma_games_points_hold(front, k, population_id, name);
    }
}

/// Keys are made at first sight: after a snapshot has been merged the
/// dashboard has every game of the snapshot, every population of each,
/// and for each population the series of every tracked metric; and for
/// a game whose race the snapshot has, the series of every tracked
/// metric of the race.
pub proof fn lemma_snapshot_makes_keys(
    model: TimeSeriesModel,
    snapshot: Snapshot,
    g: int,
    p: int,
    i: int,
)
    requires
        0 <= g < snapshot.games.len(),
    ensures
        model.with_snapshot(snapshot).has_game(snapshot.games[g].game_id),
        snapshot.games[g].race is Some && 0 <= i < RACE_METRIC_COUNT ==> model.with_snapshot(
            snapshot,
        ).has_game_series(snapshot.games[g].game_id, race_metric_name(i)),
        0 <= p < snapshot.games[g].populations.len() ==> model.with_snapshot(
            snapshot,
        ).has_population(snapshot.games[g].game_id, snapshot.games[g].populations[p].population_id),
        0 <= p < snapshot.games[g].populations.len() && 0 <= i < METRIC_COUNT
            ==> model.with_snapshot(snapshot).has_population_series(
            snapshot.games[g].game_id,
            snapshot.games[g].populations[p].population_id,
            metric_name(i),
        ),
{
    let game = snapshot.games[g];
    let after = model.with_snapshot(snapshot);
    lemma_first_position(Seq::<Series>::empty(), is_named(metric_name(i)));
    lemma_first_position(Seq::<Series>::empty(), is_named(metric_name(0)));
    lemma_snapshot_arrives(model, snapshot, game.game_id, 0, race_metric_name(i));
    if game.race is Some && 0 <= i < RACE_METRIC_COUNT {
        lemma_race_brings(game.game_time, game.race->Some_0, i);
        lemma_games_points_hold(snapshot.games, g, 0, race_metric_name(i));
    }
    if 0 <= p < game.populations.len() {
        let settled = game.populations[p];
        let pid = settled.population_id;
        lemma_first_position(Seq::<PopulationSeries>::empty(), is_population(pid));
        let j = if 0 <= i < METRIC_COUNT {
            i
        } else {
            0
        };
        lemma_snapshot_arrives(model, snapshot, game.game_id, pid, metric_name(j));
        lemma_population_brings(game.game_time, settled, j);
        lemma_populations_points_hold(game.game_time, game.populations, p, metric_name(j));
        lemma_games_points_hold(snapshot.games, g, pid, metric_name(j));
        assert(after.has_population_series(game.game_id, pid, metric_name(j)));
    }
}

/// What a log does to a series: the series is after the log what it
/// was with the points arrived that the snapshots of the log brought to
/// it, in the order of the log.
pub proof fn lemma_log_arrives(
    model: TimeSeriesModel,
    log: Seq<Snapshot>,
    game_id: u32,
    population_id: u32,
    name: Seq<char>,
)
    ensures
        model.with_log(log).game_history(game_id, name) == arrived(
            model.game_history(game_id, name),
            log_game_points(log, game_id, name),
        ),
        model.with_log(log).population_history(game_id, population_id, name) == arrived(
            model.population_history(game_id, population_id, name),
            log_population_points(log, game_id, population_id, name),
        ),
    decreases log.len(),
{
    if log.len() > 0 {
        let front = log.drop_last();
        lemma_log_arrives(model, front, game_id, population_id, name);
        lemma_snapshot_arrives(model.with_log(front), log.last(), game_id, population_id, name);
        lemma_arrived_in_parts(
            model.game_history(game_id, name),
            log_game_points(front, game_id, name),
            log.last().game_points(game_id, name),
        );
        lemma_arrived_in_parts(
            model.population_history(game_id, population_id, name),
            log_population_points(front, game_id, population_id, name),
            log.last().population_points(game_id, population_id, name),
        );
    }
}

/// What a series of a rebuilt dashboard is: the points that the log
/// brings to it, sorted by time, those of equal time in the order of
/// the log. So it does not matter for a series in which order snapshots
/// of different times stand in the log.
pub proof fn lemma_rebuilt_series(
    log: Seq<Snapshot>,
    game_id: u32,
    population_id: u32,
    name: Seq<char>,
)
    ensures
        rebuilt(log).game_history(game_id, name) == in_time_order(
            log_game_points(log, game_id, name),
        ),
        rebuilt(log).population_history(game_id, population_id, name) == in_time_order(
            log_population_points(log, game_id, population_id, name),
        ),
{
    let nothing = TimeSeriesModel::empty();
    lemma_log_arrives(nothing, log, game_id, population_id, name);
    lemma_first_position(nothing.games, is_game(game_id));
    lemma_first_position(Seq::<Series>::empty(), is_named(name));
    lemma_first_position(Seq::<PopulationSeries>::empty(), is_population(population_id));
    let none = Seq::<HistoricalValue>::empty();
    assert(nothing.game_history(game_id, name) == none);
    assert(nothing.population_history(game_id, population_id, name) == none);
    assert(none + log_game_points(log, game_id, name) =~= log_game_points(log, game_id, name));
    assert(none + log_population_points(log, game_id, population_id, name)
        =~= log_population_points(log, game_id, population_id, name));
}

/// Nothing is merged away: a snapshot that is merged twice brings its
/// points twice. Every series then has the points it had and, twice
/// over, the points that the snapshot brings to it; so each point of
/// the snapshot is there two times more than before, with the time and
/// the value it came with.
pub proof fn lemma_snapshot_twice(
    model: TimeSeriesModel,
    snapshot: Snapshot,
    game_id: u32,
    population_id: u32,
    name: Seq<char>,
)
    ensures
        ({
            let twice = model.with_snapshot(snapshot).with_snapshot(snapshot);
            let race = snapshot.game_points(game_id, name);
            let settled = snapshot.population_points(game_id, population_id, name);
            &&& twice.game_history(game_id, name).to_multiset() == model.game_history(
                game_id,
                name,
            ).to_multiset().add(race.to_multiset()).add(race.to_multiset())
            &&& twice.game_history(game_id, name).len() == model.game_history(game_id, name).len()
                + 2 * race.len()
            &&& twice.population_history(game_id, population_id, name).to_multiset()
                == model.population_history(game_id, population_id, name).to_multiset().add(
                settled.to_multiset(),
            ).add(settled.to_multiset())
            &&& twice.population_history(game_id, population_id, name).len()
                == model.population_history(game_id, population_id, name).len() + 2 * settled.len()
        }),
{
    let once = model.with_snapshot(snapshot);
    let race = snapshot.game_points(game_id, name);
    let settled = snapshot.population_points(game_id, population_id, name);
    lemma_snapshot_arrives(model, snapshot, game_id, population_id, name);
    lemma_snapshot_arrives(once, snapshot, game_id, population_id, name);
    lemma_arrived_points(model.game_history(game_id, name), race);
    lemma_arrived_points(once.game_history(game_id, name), race);
    lemma_arrived_points(model.population_history(game_id, population_id, name), settled);
    lemma_arrived_points(once.population_history(game_id, population_id, name), settled);
}

/// No two tracked metrics of a population share a name.
pub proof fn lemma_metric_names_differ()
    ensures
        forall|i: int, j: int|
            0 <= i < j < METRIC_COUNT ==> #[trigger] metric_name(i) != #[trigger] metric_name(j),
{
    reveal_strlit("fuel_stockpile");
    reveal_strlit("maintenance_stockpile");
    reveal_strlit("population");
    reveal_strlit("duranium");
    reveal_strlit("neutronium");
    reveal_strlit("corbomite");
    reveal_strlit("tritanium");
    reveal_strlit("boronide");
    reveal_strlit("mercassium");
    reveal_strlit("vendarite");
    reveal_strlit("sorium");
    reveal_strlit("uridium");
    reveal_strlit("corundium");
    reveal_strlit("gallicite");
    assert forall|i: int, j: int| 0 <= i < j < METRIC_COUNT implies #[trigger] metric_name(i)
        != #[trigger] metric_name(j) by {
        let a = metric_name(i);
        let b = metric_name(j);
        if a.len() == b.len() {
            assert(a[0] != b[0] || a[3] != b[3]);
        }
    }
}

/// The two tracked metrics of a race differ in name.
pub proof fn lemma_race_metric_names_differ()
    ensures
        race_metric_name(0) != race_metric_name(1),
{
    reveal_strlit("wealth");
    reveal_strlit("annual_wealth");
    assert(race_metric_name(0).len() != race_metric_name(1).len());
}

/// The race of a game, where the snapshot has it, brings one point to
/// the series of each tracked metric: the time of the snapshot with the
/// value of the metric.
pub proof fn lemma_race_brings(date: Scalar, race: FCTRace, i: int)
    requires
        0 <= i < RACE_METRIC_COUNT,
    ensures
        points_named(race_points(date, Some(race)), race_metric_name(i)) == seq![
            HistoricalValue { x: date, y: race_metric(race, i) },
        ],
{
    lemma_race_metric_names_differ();
    let points = race_points(date, Some(race));
    assert forall|j: int| 0 <= j < points.len() && j != i implies (#[trigger] points[j]).name
        != points[i].name by {}
    lemma_points_named_one(points, i);
}

/// Of points of which no other has the name of the `i`-th, the `i`-th
/// alone goes to the series of its name.
proof fn lemma_points_named_one(points: Seq<NamedPoint>, i: int)
    requires
        0 <= i < points.len(),
        forall|j: int| 0 <= j < points.len() && j != i ==> (#[trigger] points[j]).name != points[i].name,
    ensures
        points_named(points, points[i].name) == seq![points[i].point],
    decreases points.len(),
{
    let name = points[i].name;
    let front = points.drop_last();
    if i == points.len() - 1 {
        lemma_points_named_none(front, name);
        assert(Seq::<HistoricalValue>::empty().push(points[i].point) =~= seq![points[i].point]);
    } else {
        assert(points.last() == points[points.len() - 1]);
        lemma_points_named_one(front, i);
    }
}

/// Points of other names bring nothing to a series.
proof fn lemma_points_named_none(points: Seq<NamedPoint>, name: Seq<char>)
    requires
        forall|j: int| 0 <= j < points.len() ==> (#[trigger] points[j]).name != name,
    ensures
        points_named(points, name) == Seq::<HistoricalValue>::empty(),
    decreases points.len(),
{
    if points.len() > 0 {
        assert(points.last() == points[points.len() - 1]);
        lemma_points_named_none(points.drop_last(), name);
    }
}

/// A snapshot of a population brings one point to the series of each
/// tracked metric: the time of the snapshot with the value of the
/// metric, which is zero for a metric that the snapshot lacks.
pub proof fn lemma_population_brings(date: Scalar, snapshot: PopulationSnapshot, i: int)
    requires
        0 <= i < METRIC_COUNT,
    ensures
        points_named(population_points(date, snapshot), metric_name(i)) == seq![
            HistoricalValue { x: date, y: snapshot.metric(i) },
        ],
        snapshot.uridium is None ==> snapshot.metric(11) == (Scalar { bits: 0 }),
{
    lemma_metric_names_differ();
    let points = population_points(date, snapshot);
    assert forall|j: int| 0 <= j < points.len() && j != i implies (#[trigger] points[j]).name
        != points[i].name by {
        if j < i {
            assert(metric_name(j) != metric_name(i));
        } else {
            assert(metric_name(i) != metric_name(j));
        }
    }
    lemma_points_named_one(points, i);
}

/// A population that is merged gets one point more in the series of
/// each tracked metric, absent metrics too: the series has the points
/// it had and the new one, with the time of the snapshot and the value
/// of the metric, zero for a metric that the snapshot lacks.
pub proof fn lemma_population_gets_point(
    population: PopulationSeries,
    date: Scalar,
    snapshot: PopulationSnapshot,
    i: int,
)
    requires
        0 <= i < METRIC_COUNT,
    ensures
        ({
            let p = HistoricalValue { x: date, y: snapshot.metric(i) };
            let after = population.with_snapshot(date, snapshot);
            &&& has_series(after.fields, metric_name(i))
            &&& history(after.fields, metric_name(i)) == in_time_order(
                history(population.fields, metric_name(i)).push(p),
            )
            &&& history(after.fields, metric_name(i)).to_multiset() == history(
                population.fields,
                metric_name(i),
            ).to_multiset().insert(p)
        }),
{
    let p = HistoricalValue { x: date, y: snapshot.metric(i) };
    let had = history(population.fields, metric_name(i));
    lemma_population_brings(date, snapshot, i);
    lemma_points_arrive(population.fields, population_points(date, snapshot), metric_name(i));
    lemma_arrived_one(had, p);
    lemma_in_time_order_points(had.push(p));
    vstd::seq_lib::to_multiset_build(had, p);
}

} // verus!
