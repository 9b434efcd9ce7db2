//! What a dashboard is asked: its games, the populations of a game, and
//! the series of a population.

use crate::dashboard::{find_game, find_population, Dashboard, DashboardPopulation};
use crate::model::{
    game_position, is_population, lemma_first_position, population_position, PopulationSeries,
};
use vstd::prelude::*;

verus! {

/// The id and the name of a game or a population.
#[derive(Clone, Copy, Debug)]
pub struct KeyValudDto<'a> {
    pub id: u32,
    pub name: &'a str,
}

/// The games of the dashboard, in its order: each with its id and name.
pub fn data_games(dashboard: &Dashboard) -> (result: Vec<KeyValudDto<'_>>)
    ensures
        result.len() == dashboard.games.len(),
        forall|i: int|
            0 <= i < result.len() ==> (#[trigger] result[i]).id == dashboard.games[i].game_id
                && result[i].name@ == dashboard.games[i].game_name@,
{
    let mut result: Vec<KeyValudDto<'_>> = Vec::new();
    let mut i: usize = 0;
    while i < dashboard.games.len()
        invariant
            i <= dashboard.games.len(),
            result.len() == i,
            forall|j: int|
                0 <= j < i ==> (#[trigger] result[j]).id == dashboard.games[j].game_id
                    && result[j].name@ == dashboard.games[j].game_name@,
        decreases dashboard.games.len() - i,
    {
        let game = &dashboard.games[i];
        result.push(KeyValudDto { id: game.game_id, name: game.game_name.as_str() });
        i += 1;
    }
    result
}

/// The populations of the game with the given id, in the game's order:
/// each with its id and name. None if the dashboard has no such game.
pub fn data_games_populations(dashboard: &Dashboard, game_id: u32) -> (result: Vec<KeyValudDto<'_>>)
    ensures
        !dashboard@.has_game(game_id) ==> result.len() == 0,
        dashboard@.has_game(game_id) ==> ({
            let game = dashboard.games[game_position(dashboard@.games, game_id)];
            &&& result.len() == game.populations.len()
            &&& forall|i: int|
                0 <= i < result.len() ==> (#[trigger] result[i]).id
                    == game.populations[i].population_id && result[i].name@
                    == game.populations[i].population_name@
        }),
{
    let mut result: Vec<KeyValudDto<'_>> = Vec::new();
    let g = find_game(&dashboard.games, game_id);
    if g < dashboard.games.len() {
        let game = &dashboard.games[g];
        let mut i: usize = 0;
        while i < game.populations.len()
            invariant
                i <= game.populations.len(),
                result.len() == i,
                forall|j: int|
                    0 <= j < i ==> (#[trigger] result[j]).id == game.populations[j].population_id
                        && result[j].name@ == game.populations[j].population_name@,
            decreases game.populations.len() - i,
        {
            let population = &game.populations[i];
            result.push(
                KeyValudDto {
                    id: population.population_id,
                    name: population.population_name.as_str(),
                },
            );
            i += 1;
        }
    }
    result
}

/// The population with the given id of the game with the given id, if
/// the dashboard has the game and the game the population.
pub fn data_games_populations_by_id(dashboard: &Dashboard, game_id: u32, population_id: u32) -> (found:
    Option<&DashboardPopulation>)
    ensures
        found is Some <==> dashboard@.has_population(game_id, population_id),
        found matches Some(population) ==> ({
            let game = dashboard.games[game_position(dashboard@.games, game_id)];
            *population == game.populations[population_position(
                dashboard@.populations(game_id),
                population_id,
            )]
        }),
{
    proof {
        lemma_first_position(Seq::<PopulationSeries>::empty(), is_population(population_id));
    }
    let g = find_game(&dashboard.games, game_id);
    if g < dashboard.games.len() {
        let game = &dashboard.games[g];
        proof {
            assert(dashboard@.games[g as int] == game@);
        }
        let p = find_population(&game.populations, population_id);
        if p < game.populations.len() {
            Some(&game.populations[p])
        } else {
            None
        }
    } else {
        None
    }
}

} // verus!
