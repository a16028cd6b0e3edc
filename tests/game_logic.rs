use placeguessr::game_logic::{Game, PlayerState};
use placeguessr::location::Location;
use placeguessr::location_generator::{
    DatafileLocationGenerator, LocationGenerator, LocationGeneratorTrait, MockLocationGenerator,
};

fn deg2rad(x: f64) -> f64 {
    3.14159265 * x / 180.0
}

/// Score of a guess, from its great-circle distance in km to the location.
fn points_for(actual: &Location, guess: &Location) -> usize {
    let (lat1, lon1) = (actual.latitude as f64 / 1e7, actual.longitude as f64 / 1e7);
    let (lat2, lon2) = (guess.latitude as f64 / 1e7, guess.longitude as f64 / 1e7);
    let lat_diff_sin = ((deg2rad(lat1) - deg2rad(lat2)) / 2.).sin();
    let lon_diff_sin = ((deg2rad(lon1) - deg2rad(lon2)) / 2.).sin();
    let h = lat_diff_sin * lat_diff_sin
        + deg2rad(lat1).cos() * deg2rad(lat2).cos() * lon_diff_sin * lon_diff_sin;
    let distance = 2.0 * 6360.0 * h.sqrt().asin();
    if distance < 1.0 {
        10_000
    } else if distance > 20_000.0 {
        10
    } else {
        (10_000.0 - 3174.471323 * distance.ln().sqrt()) as usize
    }
}

#[test]
fn test_add_player() {
    let mut game = Game::new(5, &LocationGenerator::mock(), "world");
    assert_eq!(game.add_player(1234, "MyNickname"), Ok(()));
    assert_eq!(game.get_locations_remaining(), 5);
    assert_eq!(game.get_player_ids(), vec![1234]);
    assert_eq!(game.get_player(1234).unwrap().name, "MyNickname");
    assert_eq!(game.get_player(1234).unwrap().points, 0);
}

#[test]
fn test_singleplayer_game() {
    let mut game = Game::new(2, &LocationGenerator::mock(), "world");
    game.add_player(1234, "MyNickname").unwrap();
    assert_eq!(game.get_player(1234).unwrap().state, PlayerState::Joined);

    game.start();
    assert_eq!(game.everyone_guessed(), false);
    assert_eq!(game.is_finished(), false);
    assert_eq!(game.get_player(1234).unwrap().state, PlayerState::Guessing);

    let guess = LocationGenerator::mock().sample_from_dataset("world").unwrap();
    let points = points_for(&game.get_current_location(), &guess);
    let guess_result = game.guess(1234, &guess, points);
    assert_eq!(guess_result.unwrap().points_gained, 10_000);
    assert_eq!(game.get_player(1234).unwrap().points, 10_000);
    assert_eq!(game.everyone_guessed(), true);
    assert_eq!(
        game.get_player(1234).unwrap().state,
        PlayerState::GuessResults
    );

    game.advance_guess().unwrap();
    assert_eq!(game.everyone_guessed(), false);
    assert_eq!(game.is_finished(), false);
    assert_eq!(game.get_player(1234).unwrap().state, PlayerState::Guessing);

    let guess = LocationGenerator::mock().sample_from_dataset("world").unwrap();
    let points = points_for(&game.get_current_location(), &guess);
    let guess_result = game.guess(1234, &guess, points);
    assert_eq!(guess_result.unwrap().points_gained, 10_000);
    assert_eq!(game.get_player(1234).unwrap().points, 20_000);
    assert_eq!(game.everyone_guessed(), true);
    assert_eq!(
        game.get_player(1234).unwrap().state,
        PlayerState::GuessResults
    );

    game.advance_guess().unwrap();
    assert_eq!(game.is_finished(), true);
    assert_eq!(
        game.get_player(1234).unwrap().state,
        PlayerState::FinalResults
    );
}

#[test]
fn advance_after_last_location_is_game_over() {
    let mut game = Game::new(1, &LocationGenerator::mock(), "world");
    game.add_player(7, "A").unwrap();
    game.start();
    assert!(game.advance_guess().is_ok());
    assert_eq!(game.advance_guess(), Err(placeguessr::game_logic::Error::GameOver));
    let guess = Location::new(0, 0);
    assert!(game.guess(7, &guess, 5).is_err());
}

#[test]
fn add_player_twice_replaces() {
    let mut game = Game::new(1, &LocationGenerator::mock(), "world");
    game.add_player(3, "First").unwrap();
    game.start();
    game.add_player(3, "Second").unwrap();
    assert_eq!(game.get_player_ids(), vec![3]);
    assert_eq!(game.get_player(3).unwrap().name, "Second");
    assert_eq!(game.get_player(3).unwrap().state, PlayerState::Joined);
    assert!(game.get_player(4).is_none());
}

#[test]
fn datafile_generator_falls_back_to_world() {
    let world = vec![Location::new(1, 2), Location::new(3, 4)];
    let brand = vec![Location::new(5, 6)];
    let gen = DatafileLocationGenerator::new(vec![
        ("world".to_string(), world),
        ("brand".to_string(), brand),
    ]);
    assert_eq!(gen.pick("brand", 17), Some(Location::new(5, 6)));
    assert_eq!(gen.pick("unknown", 3), Some(Location::new(3, 4)));
    assert_eq!(gen.pick("world", 4), Some(Location::new(1, 2)));
    let empty = DatafileLocationGenerator::new(vec![("brand".to_string(), vec![])]);
    assert_eq!(empty.pick("brand", 0), None);
    assert_eq!(empty.pick("other", 0), None);
}

#[test]
fn mock_generator_gives_fixed_location() {
    let gen = LocationGenerator::mock();
    assert_eq!(gen.sample("anything"), Some(Location::new(300_000_000, 980_000_000)));
}

#[test]
fn later_dataset_of_same_name_wins() {
    let gen = DatafileLocationGenerator::new(vec![
        ("brand".to_string(), vec![Location::new(1, 1)]),
        ("brand".to_string(), vec![Location::new(2, 2)]),
    ]);
    assert_eq!(gen.pick("brand", 0), Some(Location::new(2, 2)));
    assert_eq!(gen.sample_from_dataset("brand"), Some(Location::new(2, 2)));
}

#[test]
fn mock_trait_sample_gives_mock_point() {
    let m = MockLocationGenerator::new();
    assert_eq!(m.sample_from_dataset("x"), Some(Location::new(300_000_000, 980_000_000)));
}
