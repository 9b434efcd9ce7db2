use analytics::aurora_db::{
    AuroraData, AuroraGameData, FCTGame, FCTMineralDeposit, FCTPopulation, FCTRace,
};
use analytics::dashboard::{
    append_point, find_field, find_game, find_population, merge_game, merge_population,
    metric_label, metric_value, race_metric_label, race_metric_value, Dashboard, DashboardDb,
    DashboardField, DashboardPopulation, DbError, GameDashboard, HistoricalValue,
};
use analytics::db::{DbData, PopulationDbData};
use analytics::scalar::Scalar;

fn num(x: f64) -> Scalar {
    Scalar::from_bits(x.to_bits())
}

fn val(s: Scalar) -> f64 {
    f64::from_bits(s.to_bits())
}

fn game(time: f64) -> FCTGame {
    FCTGame {
        game_id: 0,
        game_name: "Game 01".to_string(),
        game_time: num(time),
        start_year: 2,
        last_viewed: num(1.0),
    }
}

fn population(minerals: Option<Vec<FCTMineralDeposit>>) -> FCTPopulation {
    FCTPopulation {
        population_id: 1,
        system_id: None,
        system_body_id: None,
        pop_name: "Pop 1".to_string(),
        fuel_stockpile: num(1.0),
        maintenance_stockpile: num(2.0),
        population: num(3.0),
        duranium: num(4.0),
        neutronium: num(5.0),
        corbomite: num(6.0),
        tritanium: num(7.0),
        boronide: num(8.0),
        mercassium: num(9.0),
        vendarite: num(10.0),
        sorium: num(11.0),
        corundium: num(11.0),
        uridium: None,
        gallicite: num(12.0),
        minerals,
    }
}

fn game_data_old(time: f64) -> AuroraGameData {
    AuroraGameData {
        game: game(time),
        race_id: 4,
        populations: vec![population(None)],
        race: None,
    }
}

fn game_data(time: f64) -> AuroraGameData {
    AuroraGameData {
        game: game(time),
        race_id: 4,
        populations: vec![population(Some(vec![
            FCTMineralDeposit { material_id: 1, amount: num(43.0), acc: num(0.3) },
            FCTMineralDeposit { material_id: 2, amount: num(430.0), acc: num(0.8) },
        ]))],
        race: Some(FCTRace { race_id: 4, wealth: num(40.0), annual_wealth: num(10.0) }),
    }
}

fn times(field: &DashboardField) -> Vec<f64> {
    field.historical.iter().map(|p| val(p.x)).collect()
}

fn values(field: &DashboardField) -> Vec<f64> {
    field.historical.iter().map(|p| val(p.y)).collect()
}

#[test]
fn dashboard_dbdata_append_test() {
    let mut db_data = Dashboard::new();
    let aurora_data = AuroraData { games: vec![game_data(1.0)] };

    db_data.append(&aurora_data);

    assert_eq!(db_data.games.len(), 1);
    assert_eq!(db_data.games[0].game_id, 0);
    assert_eq!(db_data.games[0].game_name, "Game 01".to_string());
    assert_eq!(db_data.games[0].populations.len(), 1);
    assert_eq!(db_data.games[0].populations[0].population_name, "Pop 1");
    // the thirteen metrics that the snapshot has, and uridium, which it lacks
    assert_eq!(db_data.games[0].populations[0].fields.len(), 13 + 1);
    assert_eq!(
        val(db_data.games[0].populations[0].get_field("population").historical[0].y),
        3.0
    );
}

#[test]
fn dbdata_should_keep_historical_data_sorted_by_time() {
    let mut db_data = Dashboard::new();
    let aurora_data =
        AuroraData { games: vec![game_data_old(5.0), game_data(1.0), game_data(3.0)] };

    db_data.append(&aurora_data);

    // game fields
    assert_eq!(db_data.games[0].fields.len(), 2);
    assert_eq!(db_data.games[0].fields[0].name, "wealth");
    assert_eq!(db_data.games[0].fields[0].historical.len(), 2);
    assert_eq!(val(db_data.games[0].fields[0].historical[0].y), 40.0);
    assert_eq!(val(db_data.games[0].fields[0].historical[1].y), 40.0);
    assert_eq!(db_data.games[0].fields[1].name, "annual_wealth");
    assert_eq!(db_data.games[0].fields[0].historical.len(), 2);

    // populations
    assert_eq!(db_data.games[0].populations[0].fields[0].historical.len(), 3);

    let historical = &db_data.games[0].populations[0].fields[0].historical;
    assert!((val(historical[0].x) - 1.0).abs() < 0.1, "fail at {}", val(historical[0].x));
    assert!((val(historical[1].x) - 3.0).abs() < 0.1, "fail at {}", val(historical[1].x));
    assert!((val(historical[2].x) - 5.0).abs() < 0.1, "fail at {}", val(historical[2].x));
}

#[test]
fn every_tracked_metric_gets_its_series_in_order() {
    let mut dashboard = Dashboard::new();
    dashboard.append(&AuroraData { games: vec![game_data(1.0)] });
    let fields = &dashboard.games[0].populations[0].fields;
    let names: Vec<&str> = fields.iter().map(|f| f.name.as_str()).collect();
    assert_eq!(
        names,
        vec![
            "fuel_stockpile",
            "maintenance_stockpile",
            "population",
            "duranium",
            "neutronium",
            "corbomite",
            "tritanium",
            "boronide",
            "mercassium",
            "vendarite",
            "sorium",
            "uridium",
            "corundium",
            "gallicite",
        ]
    );
    let firsts: Vec<f64> = fields.iter().map(|f| val(f.historical[0].y)).collect();
    assert_eq!(
        firsts,
        vec![1.0, 2.0, 3.0, 4.0, 5.0, 6.0, 7.0, 8.0, 9.0, 10.0, 11.0, 0.0, 11.0, 12.0]
    );
    for f in fields {
        assert_eq!(times(f), vec![1.0]);
    }
}

#[test]
fn metric_table_names_and_values() {
    let p = population(None);
    assert_eq!(metric_label(0), "fuel_stockpile");
    assert_eq!(metric_label(11), "uridium");
    assert_eq!(metric_label(13), "gallicite");
    assert_eq!(val(metric_value(&p, 2)), 3.0);
    assert_eq!(val(metric_value(&p, 12)), 11.0);
    assert_eq!(metric_value(&p, 11), Scalar::zero());
    let mut q = population(None);
    q.uridium = Some(num(7.5));
    assert_eq!(val(metric_value(&q, 11)), 7.5);
}

#[test]
fn absent_optional_metric_counts_as_zero() {
    let mut dashboard = Dashboard::new();
    dashboard.append(&AuroraData { games: vec![game_data(1.0)] });
    let mut later = game_data(2.0);
    later.populations[0].uridium = Some(num(6.5));
    dashboard.append(&AuroraData { games: vec![later] });
    dashboard.append(&AuroraData { games: vec![game_data(3.0)] });
    let uridium = dashboard.games[0].populations[0].get_field("uridium");
    assert_eq!(times(uridium), vec![1.0, 2.0, 3.0]);
    assert_eq!(values(uridium), vec![0.0, 6.5, 0.0]);
    assert_eq!(uridium.historical[0].y.to_bits(), 0);
}

#[test]
fn same_snapshot_twice_gives_two_points() {
    let snapshot = AuroraData { games: vec![game_data(4.0)] };
    let mut dashboard = Dashboard::new();
    dashboard.append(&snapshot);
    dashboard.append(&snapshot);
    assert_eq!(dashboard.games.len(), 1);
    assert_eq!(dashboard.games[0].populations.len(), 1);
    assert_eq!(dashboard.games[0].populations[0].fields.len(), 14);
    for f in &dashboard.games[0].populations[0].fields {
        assert_eq!(f.historical.len(), 2);
        assert_eq!(f.historical[0], f.historical[1]);
        assert_eq!(val(f.historical[0].x), 4.0);
    }
    for f in &dashboard.games[0].fields {
        assert_eq!(f.historical.len(), 2);
        assert_eq!(f.historical[0], f.historical[1]);
    }
    assert_eq!(values(&dashboard.games[0].fields[0]), vec![40.0, 40.0]);
    assert_eq!(values(&dashboard.games[0].fields[1]), vec![10.0, 10.0]);
}

#[test]
fn keys_stay_when_later_snapshots_lack_them() {
    let mut dashboard = Dashboard::new();
    dashboard.append(&AuroraData { games: vec![game_data(1.0)] });

    let mut other = game_data(2.0);
    other.game.game_id = 7;
    other.game.game_name = "Game 07".to_string();
    other.populations[0].population_id = 9;
    other.populations[0].pop_name = "Pop 9".to_string();
    dashboard.append(&AuroraData { games: vec![other] });

    let mut bare = game_data_old(3.0);
    bare.populations.clear();
    dashboard.append(&AuroraData { games: vec![bare] });

    assert_eq!(dashboard.games.len(), 2);
    assert_eq!(dashboard.games[0].game_id, 0);
    assert_eq!(dashboard.games[1].game_id, 7);
    assert_eq!(dashboard.games[1].game_name, "Game 07");
    assert_eq!(dashboard.games[0].populations.len(), 1);
    assert_eq!(dashboard.games[0].populations[0].population_id, 1);
    assert_eq!(dashboard.games[0].populations[0].fields.len(), 14);
    assert_eq!(dashboard.games[0].fields.len(), 2);
    assert_eq!(dashboard.games[0].fields[0].historical.len(), 1);
    assert_eq!(dashboard.games[1].populations[0].population_id, 9);
    assert_eq!(times(dashboard.games[0].populations[0].get_field("sorium")), vec![1.0]);
}

#[test]
fn names_are_those_of_the_first_sighting() {
    let mut dashboard = Dashboard::new();
    dashboard.append(&AuroraData { games: vec![game_data(1.0)] });
    let mut renamed = game_data(2.0);
    renamed.game.game_name = "Renamed".to_string();
    renamed.populations[0].pop_name = "Moved".to_string();
    dashboard.append(&AuroraData { games: vec![renamed] });
    assert_eq!(dashboard.games.len(), 1);
    assert_eq!(dashboard.games[0].game_name, "Game 01");
    assert_eq!(dashboard.games[0].populations.len(), 1);
    assert_eq!(dashboard.games[0].populations[0].population_name, "Pop 1");
    assert_eq!(times(&dashboard.games[0].populations[0].fields[0]), vec![1.0, 2.0]);
}

#[test]
fn empty_snapshot_and_empty_game_are_no_ops_below() {
    let mut dashboard = Dashboard::new();
    dashboard.append(&AuroraData { games: vec![] });
    assert_eq!(dashboard, Dashboard::new());
    assert!(dashboard.games.is_empty());

    let mut bare = game_data_old(1.0);
    bare.populations.clear();
    dashboard.append(&AuroraData { games: vec![bare] });
    assert_eq!(dashboard.games.len(), 1);
    assert_eq!(dashboard.games[0].game_name, "Game 01");
    assert!(dashboard.games[0].fields.is_empty());
    assert!(dashboard.games[0].populations.is_empty());
}

#[test]
fn race_metrics_only_where_the_snapshot_has_the_race() {
    let mut dashboard = Dashboard::new();
    dashboard.append(&AuroraData { games: vec![game_data_old(1.0)] });
    assert!(dashboard.games[0].fields.is_empty());
    dashboard.append(&AuroraData { games: vec![game_data(2.0)] });
    assert_eq!(dashboard.games[0].fields.len(), 2);
    assert_eq!(times(&dashboard.games[0].fields[0]), vec![2.0]);
    assert_eq!(values(&dashboard.games[0].fields[1]), vec![10.0]);
    dashboard.append(&AuroraData { games: vec![game_data_old(3.0)] });
    assert_eq!(times(&dashboard.games[0].fields[0]), vec![2.0]);
}

#[test]
fn rebuild_equals_incremental_appends() {
    let log = vec![
        AuroraData { games: vec![game_data_old(5.0)] },
        AuroraData { games: vec![game_data(1.0), game_data(3.0)] },
        AuroraData { games: vec![] },
        AuroraData { games: vec![game_data(2.0)] },
    ];
    let mut step_by_step = Dashboard::new();
    for snapshot in &log {
        step_by_step.append(snapshot);
    }
    let rebuilt = Dashboard::rebuild(&log);
    assert_eq!(rebuilt, step_by_step);
    assert_eq!(times(&rebuilt.games[0].populations[0].fields[0]), vec![1.0, 2.0, 3.0, 5.0]);
    assert_eq!(Dashboard::rebuild(&Vec::new()), Dashboard::new());

    let lines: Vec<Option<AuroraData>> = log.iter().cloned().map(Some).collect();
    assert_eq!(DashboardDb::load_aurora_dump(&lines), Ok(step_by_step));
}

#[test]
fn every_series_is_sorted_after_any_order_of_arrival() {
    let stamps = [9.0, -2.5, 4.0, 4.0, 0.0, 1e300, -1e-300, 7.25];
    let mut dashboard = Dashboard::new();
    for t in stamps {
        dashboard.append(&AuroraData { games: vec![game_data(t)] });
    }
    let mut expected = stamps.to_vec();
    expected.sort_by(|a, b| a.partial_cmp(b).unwrap());
    for g in &dashboard.games {
        for f in &g.fields {
            assert_eq!(times(f), expected);
        }
        for p in &g.populations {
            for f in &p.fields {
                assert_eq!(times(f), expected);
            }
        }
    }
}

#[test]
fn points_of_equal_time_keep_their_order_of_arrival() {
    let mut fields: Vec<DashboardField> = Vec::new();
    let point = |x: f64, y: f64| HistoricalValue { x: num(x), y: num(y) };
    append_point(&mut fields, "wealth", point(2.0, 1.0));
    append_point(&mut fields, "wealth", point(1.0, 2.0));
    append_point(&mut fields, "wealth", point(2.0, 3.0));
    append_point(&mut fields, "wealth", point(1.0, 4.0));
    append_point(&mut fields, "wealth", point(2.0, 5.0));
    append_point(&mut fields, "other", point(0.0, 6.0));
    assert_eq!(fields.len(), 2);
    assert_eq!(times(&fields[0]), vec![1.0, 1.0, 2.0, 2.0, 2.0]);
    assert_eq!(values(&fields[0]), vec![2.0, 4.0, 1.0, 3.0, 5.0]);
    assert_eq!(values(&fields[1]), vec![6.0]);
}

#[test]
fn push_point_sorts_a_series_that_was_not_sorted() {
    let point = |x: f64, y: f64| HistoricalValue { x: num(x), y: num(y) };
    let mut field = DashboardField {
        name: "fuel_stockpile".to_string(),
        historical: vec![point(3.0, 1.0), point(1.0, 2.0), point(2.0, 3.0)],
    };
    field.push_point(point(1.0, 4.0));
    assert_eq!(times(&field), vec![1.0, 1.0, 2.0, 3.0]);
    assert_eq!(values(&field), vec![2.0, 4.0, 3.0, 1.0]);
    let fresh = DashboardField::new("x");
    assert_eq!(fresh.name, "x");
    assert!(fresh.historical.is_empty());
}

#[test]
fn append_field_makes_or_finds_the_series() {
    let mut pop = DashboardPopulation::new(3, "Mars");
    assert_eq!(pop.population_id, 3);
    assert_eq!(pop.population_name, "Mars");
    assert!(pop.field("sorium").is_none());
    Dashboard::append_field(&mut pop, num(2.0), "sorium", num(10.0));
    Dashboard::append_field(&mut pop, num(1.0), "sorium", num(20.0));
    Dashboard::append_field(&mut pop, num(1.5), "duranium", num(30.0));
    assert_eq!(pop.fields.len(), 2);
    assert_eq!(pop.get_field("sorium").name, "sorium");
    assert_eq!(values(pop.get_field("sorium")), vec![20.0, 10.0]);
    assert_eq!(values(pop.field("duranium").unwrap()), vec![30.0]);
    assert!(pop.field("gallicite").is_none());
}

#[test]
fn the_first_of_two_entries_with_one_key_is_used() {
    let mut dashboard = Dashboard {
        games: vec![GameDashboard::new(5, "first"), GameDashboard::new(5, "second")],
    };
    let mut snapshot = game_data(1.0);
    snapshot.game.game_id = 5;
    dashboard.append(&AuroraData { games: vec![snapshot] });
    assert_eq!(dashboard.games.len(), 2);
    assert_eq!(dashboard.games[0].populations.len(), 1);
    assert_eq!(dashboard.games[0].fields.len(), 2);
    assert!(dashboard.games[1].populations.is_empty());
    assert!(dashboard.games[1].fields.is_empty());
}

#[test]
fn one_population_twice_in_a_snapshot_brings_two_points() {
    let mut data = game_data(1.0);
    let mut again = population(None);
    again.population = num(33.0);
    data.populations.push(again);
    let mut dashboard = Dashboard::new();
    dashboard.append(&AuroraData { games: vec![data] });
    assert_eq!(dashboard.games[0].populations.len(), 1);
    assert_eq!(
        values(dashboard.games[0].populations[0].get_field("population")),
        vec![3.0, 33.0]
    );
}

#[test]
fn an_unreadable_line_fails_the_whole_replay() {
    let good = AuroraData { games: vec![game_data(1.0)] };
    let lines = vec![Some(good.clone()), None, Some(good.clone()), None];
    assert_eq!(DashboardDb::load_aurora_dump(&lines), Err(DbError::ParseError { line: 1 }));
    let lines = vec![None, Some(good.clone())];
    assert_eq!(DashboardDb::load_aurora_dump(&lines), Err(DbError::ParseError { line: 0 }));
    let lines: Vec<Option<AuroraData>> = Vec::new();
    assert_eq!(DashboardDb::load_aurora_dump(&lines), Ok(Dashboard::new()));
}

#[test]
fn db_dbdata_append_test() {
    let mut db_data = DbData::new();
    let aurora_data = AuroraData {
        games: vec![AuroraGameData {
            game: FCTGame {
                game_id: 0,
                game_name: "Game 01".to_string(),
                game_time: num(1.0),
                start_year: 2,
                last_viewed: num(1.0),
            },
            race_id: 4,
            race: None,
            populations: vec![FCTPopulation {
                population_id: 1,
                system_id: None,
                system_body_id: None,
                pop_name: "Pop 1".to_string(),
                fuel_stockpile: num(1.0),
                maintenance_stockpile: num(2.0),
                population: num(3.0),
                duranium: num(4.0),
                neutronium: num(5.0),
                corbomite: num(6.0),
                tritanium: num(7.0),
                boronide: num(8.0),
                mercassium: num(9.0),
                vendarite: num(10.0),
                sorium: num(11.0),
                corundium: num(11.0),
                uridium: None,
                gallicite: num(12.0),
                minerals: None,
            }],
        }],
    };

    db_data.append(&aurora_data);

    assert_eq!(db_data.games.len(), 1);
    assert_eq!(db_data.games[0].game_id, 0);
    assert_eq!(db_data.games[0].game_name, "Game 01".to_string());
    assert_eq!(db_data.games[0].populations.len(), 1);
    // the thirteen metrics that the snapshot has, and uridium, which it lacks
    assert_eq!(db_data.games[0].populations[0].fields.len(), 13 + 1);
    let population: &PopulationDbData = &db_data.games[0].populations[0];
    assert_eq!(val(population.get_field("population").historical[0].y), 3.0);
}

#[test]
fn many_snapshots_in_any_order_give_what_a_plain_record_gives() {
    let mut seed: u64 = 2024;
    let mut step = || {
        seed = seed.wrapping_mul(6364136223846793005).wrapping_add(1442695040888963407);
        seed >> 33
    };
    let mut dashboard = Dashboard::new();
    // (game, population) -> points of "population" in order of arrival
    let mut record: Vec<((u32, u32), Vec<(f64, f64)>)> = Vec::new();
    for n in 0..120 {
        let game_id = (step() % 3) as u32;
        let population_id = (step() % 4) as u32;
        let time = (step() % 9) as f64;
        let mut data = game_data_old(time);
        data.game.game_id = game_id;
        data.populations[0].population_id = population_id;
        data.populations[0].population = num(n as f64);
        dashboard.append(&AuroraData { games: vec![data] });
        match record.iter_mut().find(|e| e.0 == (game_id, population_id)) {
            Some(entry) => entry.1.push((time, n as f64)),
            None => record.push(((game_id, population_id), vec![(time, n as f64)])),
        }
    }
    let mut seen = 0;
    for g in &dashboard.games {
        for p in &g.populations {
            let entry = record.iter().find(|e| e.0 == (g.game_id, p.population_id)).unwrap();
            let mut expected = entry.1.clone();
            expected.sort_by(|a, b| a.0.partial_cmp(&b.0).unwrap());
            let field = p.get_field("population");
            let got: Vec<(f64, f64)> =
                field.historical.iter().map(|q| (val(q.x), val(q.y))).collect();
            assert_eq!(got, expected);
            assert_eq!(p.fields.len(), 14);
            seen += 1;
        }
    }
    assert_eq!(seen, record.len());
}

#[test]
fn race_metric_table_names_and_values() {
    let race = FCTRace { race_id: 4, wealth: num(40.0), annual_wealth: num(10.0) };
    assert_eq!(race_metric_label(0), "wealth");
    assert_eq!(race_metric_label(1), "annual_wealth");
    assert_eq!(val(race_metric_value(&race, 0)), 40.0);
    assert_eq!(val(race_metric_value(&race, 1)), 10.0);
}

#[test]
fn find_gives_the_first_position_or_the_length() {
    let fields = vec![
        DashboardField::new("a"),
        DashboardField::new("b"),
        DashboardField::new("a"),
    ];
    assert_eq!(find_field(&fields, "a"), 0);
    assert_eq!(find_field(&fields, "b"), 1);
    assert_eq!(find_field(&fields, "c"), 3);
    assert_eq!(find_field(&Vec::new(), "a"), 0);

    let populations = vec![
        DashboardPopulation::new(7, "x"),
        DashboardPopulation::new(8, "y"),
        DashboardPopulation::new(7, "z"),
    ];
    assert_eq!(find_population(&populations, 7), 0);
    assert_eq!(find_population(&populations, 8), 1);
    assert_eq!(find_population(&populations, 9), 3);

    let games = vec![GameDashboard::new(1, "x"), GameDashboard::new(2, "y")];
    assert_eq!(find_game(&games, 2), 1);
    assert_eq!(find_game(&games, 3), 2);
}

#[test]
fn merging_one_population_and_one_game() {
    let mut populations: Vec<DashboardPopulation> = Vec::new();
    merge_population(&mut populations, num(2.0), &population(None));
    merge_population(&mut populations, num(1.0), &population(None));
    let mut other = population(None);
    other.population_id = 2;
    other.pop_name = "Pop 2".to_string();
    merge_population(&mut populations, num(3.0), &other);
    assert_eq!(populations.len(), 2);
    assert_eq!(populations[1].population_name, "Pop 2");
    assert_eq!(times(populations[0].get_field("gallicite")), vec![1.0, 2.0]);
    assert_eq!(times(populations[1].get_field("gallicite")), vec![3.0]);

    let mut games: Vec<GameDashboard> = Vec::new();
    merge_game(&mut games, &game_data(2.0));
    merge_game(&mut games, &game_data_old(1.0));
    assert_eq!(games.len(), 1);
    assert_eq!(games[0].game_id, 0);
    assert_eq!(times(&games[0].fields[0]), vec![2.0]);
    assert_eq!(times(games[0].populations[0].get_field("sorium")), vec![1.0, 2.0]);

    let mut game = GameDashboard::new(3, "three");
    game.append_race(num(1.0), &None);
    assert!(game.fields.is_empty());
    game.append_race(
        num(1.0),
        &Some(FCTRace { race_id: 1, wealth: num(5.0), annual_wealth: num(6.0) }),
    );
    assert_eq!(values(&game.fields[0]), vec![5.0]);
    assert_eq!(values(&game.fields[1]), vec![6.0]);
    game.append(&game_data(0.5));
    assert_eq!(game.game_id, 3);
    assert_eq!(game.game_name, "three");
    assert_eq!(values(&game.fields[0]), vec![40.0, 5.0]);
    assert_eq!(game.populations.len(), 1);

    let mut settled = DashboardPopulation::new(1, "kept");
    settled.append(num(9.0), &population(None));
    assert_eq!(settled.population_name, "kept");
    assert_eq!(settled.fields.len(), 14);
}
