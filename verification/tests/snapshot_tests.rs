use analytics::aurora_db::{
    AuroraDb, AuroraGameData, DbError, FCTGame, FCTPopulation, FCTRace,
};
use analytics::db::Db;
use analytics::scalar::Scalar;

fn bits(x: f64) -> Scalar {
    Scalar::from_bits(x.to_bits())
}

fn game_at(time: f64, start_year: u32, last_viewed: f64) -> FCTGame {
    FCTGame {
        game_id: 1,
        game_name: "g".to_string(),
        game_time: bits(time),
        start_year,
        last_viewed: bits(last_viewed),
    }
}

#[test]
fn year_counts_whole_years_from_the_start() {
    assert_eq!(game_at(0.0, 2025, 1.0).year(), 2025);
    assert_eq!(game_at(31_535_999.9, 2025, 1.0).year(), 2025);
    assert_eq!(game_at(31_536_000.0, 2025, 1.0).year(), 2026);
    assert_eq!(game_at(454_853_030.0, 2000, 1.0).year(), 2014);
    assert_eq!(game_at(-5.0, 3, 1.0).year(), 3);
    assert_eq!(game_at(1e300, 0, 1.0).year(), 136);
}

#[test]
fn is_last_needs_a_mark_above_zero() {
    assert!(game_at(0.0, 1, 1.0).is_last());
    assert!(game_at(0.0, 1, 0.25).is_last());
    assert!(!game_at(0.0, 1, 0.0).is_last());
    assert!(!game_at(0.0, 1, -0.0).is_last());
    assert!(!game_at(0.0, 1, -1.0).is_last());
    assert!(!game_at(0.0, 1, f64::NAN).is_last());
}

#[test]
fn handles_keep_their_paths() {
    assert_eq!(AuroraDb::new("/games/AuroraDB.db").path, "/games/AuroraDB.db");
    assert_eq!(AuroraDb::new("").path, "");
    let db = Db::load("data/aurora_dump.json");
    assert_eq!(db.unwrap().path, "data/aurora_dump.json");
}

fn settler(system_id: Option<u32>, system_body_id: Option<u32>) -> FCTPopulation {
    FCTPopulation {
        population_id: 1,
        system_id,
        system_body_id,
        pop_name: "p".to_string(),
        fuel_stockpile: bits(0.0),
        maintenance_stockpile: bits(0.0),
        population: bits(0.0),
        duranium: bits(0.0),
        neutronium: bits(0.0),
        corbomite: bits(0.0),
        tritanium: bits(0.0),
        boronide: bits(0.0),
        mercassium: bits(0.0),
        vendarite: bits(0.0),
        sorium: bits(0.0),
        corundium: bits(0.0),
        uridium: None,
        gallicite: bits(0.0),
        minerals: None,
    }
}

#[test]
fn deposit_site_needs_system_and_body() {
    assert_eq!(settler(Some(4), Some(9)).deposit_site(), Ok((4, 9)));
    assert_eq!(
        settler(None, Some(9)).deposit_site(),
        Err(DbError::Generic("system_id not returned".to_string()))
    );
    assert_eq!(
        settler(Some(4), None).deposit_site(),
        Err(DbError::Generic("system_body_id not returned".to_string()))
    );
    assert_eq!(
        settler(None, None).deposit_site(),
        Err(DbError::Generic("system_id not returned".to_string()))
    );
}

#[test]
fn assemble_takes_the_race_id_from_the_race() {
    let race = FCTRace { race_id: 12, wealth: bits(1.0), annual_wealth: bits(2.0) };
    let data = AuroraGameData::assemble(
        game_at(5.0, 1, 1.0),
        race,
        vec![settler(Some(1), Some(2)), settler(None, None)],
    );
    assert_eq!(data.race_id, 12);
    assert_eq!(data.race, Some(race));
    assert_eq!(data.game, game_at(5.0, 1, 1.0));
    assert_eq!(data.populations.len(), 2);
    assert_eq!(data.populations[0].system_id, Some(1));
}
