use battleship::game::{Game, LobbyFull, Stage, Step, COUNTDOWN_STEPS, MAX_PLAYERS};
use battleship::grid::{Coordinate, Grid};
use battleship::notice::{Delivery, Notice};
use battleship::player::Player;
use battleship::ship::Ship;

fn fleet_grid() -> Grid {
    let mut grid = Grid::new(10, 10);
    grid.place(Ship::line(0, 0, 2, false).unwrap()).unwrap();
    grid.place(Ship::line(4, 4, 1, true).unwrap()).unwrap();
    grid
}

fn player(name: &str) -> Player {
    let mut player = Player::new(String::from(name));
    player.grid = fleet_grid();
    player
}

fn full_game() -> Game {
    let mut game = Game::default();
    for name in ["A", "B", "C"] {
        game.add_player(player(name)).unwrap();
    }
    game
}

fn texts(outbox: &[Delivery]) -> Vec<(usize, String)> {
    outbox
        .iter()
        .map(|d| match &d.notice {
            Notice::Text(text) => (d.to, text.clone()),
            Notice::Radar(_) => (d.to, String::from("<radar>")),
            Notice::Fleet(_) => (d.to, String::from("<fleet>")),
        })
        .collect()
}

fn line(to: usize, text: &str) -> (usize, String) {
    (to, String::from(text))
}

fn marks(grid: &Grid) -> Vec<Vec<(u8, u8, bool)>> {
    grid.ships.iter().map(|s| s.coords.iter().map(|c| (c.x, c.y, c.is_hit)).collect()).collect()
}

fn shots(grid: &Grid) -> Vec<(u8, u8)> {
    grid.hits.iter().map(|c| (c.x, c.y)).collect()
}

fn sink_all(grid: &mut Grid) {
    let targets: Vec<Coordinate> = grid.ships.iter().flat_map(|s| s.coords.clone()).collect();
    for c in targets {
        grid.fire(c);
    }
}

#[test]
fn match_has_three_players() {
    assert_eq!(MAX_PLAYERS, 3);
    assert_eq!(COUNTDOWN_STEPS, 3);
}

#[test]
fn opponents_form_a_ring() {
    let game = Game::default();
    assert_eq!(game.opponent_index(0), 1);
    assert_eq!(game.opponent_index(1), 2);
    assert_eq!(game.opponent_index(2), 0);
}

#[test]
fn no_two_players_fire_at_each_other() {
    let game = Game::default();
    for i in 0..MAX_PLAYERS {
        let there = game.opponent_index(i);
        assert_ne!(there, i);
        assert_ne!(game.opponent_index(there), i);
        assert_eq!(game.opponent_index(game.opponent_index(there)), i);
    }
}

#[test]
fn opponent_index_wraps_for_any_place() {
    let game = Game::default();
    assert_eq!(game.opponent_index(3), 1);
    assert_eq!(game.opponent_index(5), 0);
    assert_eq!(game.opponent_index(usize::MAX), (usize::MAX % 3 + 1) % 3);
}

#[test]
fn opponent_is_the_next_player() {
    let mut game = full_game();
    assert_eq!(game.opponent(0).name, "B");
    assert_eq!(game.opponent(1).name, "C");
    assert_eq!(game.opponent(2).name, "A");
    game.opponent_mut(2).name = String::from("Ann");
    assert_eq!(game.players[0].name, "Ann");
    assert_eq!(game.players[1].name, "B");
    assert_eq!(game.players[2].name, "C");
}

#[test]
fn new_game_has_no_players() {
    let game = Game::default();
    assert!(game.players.is_empty());
    assert!(!game.is_ready());
    assert_eq!(game.start(), None);
}

#[test]
fn first_player_is_told_to_wait() {
    let mut game = Game::default();
    let outbox = game.add_player(player("A")).unwrap();
    assert_eq!(texts(&outbox), vec![line(0, "Waiting for opponent...\n")]);
    assert_eq!(game.players.len(), 1);
    assert!(!game.is_ready());
}

#[test]
fn second_player_joins_in_silence() {
    let mut game = Game::default();
    game.add_player(player("A")).unwrap();
    let outbox = game.add_player(player("B")).unwrap();
    assert!(outbox.is_empty());
    assert_eq!(game.players.len(), 2);
    assert!(!game.is_ready());
    assert_eq!(game.start(), None);
}

#[test]
fn third_player_fills_the_roster() {
    let mut game = Game::default();
    game.add_player(player("A")).unwrap();
    game.add_player(player("B")).unwrap();
    let outbox = game.add_player(player("C")).unwrap();
    assert_eq!(
        texts(&outbox),
        vec![
            line(0, "Your opponent is B\n"),
            line(1, "Your opponent is C\n"),
            line(2, "Your opponent is A\n"),
        ]
    );
    assert!(game.is_ready());
    let names: Vec<&str> = game.players.iter().map(|p| p.name.as_str()).collect();
    assert_eq!(names, vec!["A", "B", "C"]);
}

#[test]
fn fourth_player_is_turned_away() {
    let mut game = full_game();
    let r = game.add_player(player("D"));
    assert!(matches!(r, Err(LobbyFull)));
    let names: Vec<&str> = game.players.iter().map(|p| p.name.as_str()).collect();
    assert_eq!(names, vec!["A", "B", "C"]);
    assert!(game.add_player(player("E")).is_err());
    assert_eq!(game.players.len(), 3);
}

#[test]
fn roster_never_exceeds_three() {
    let mut game = Game::default();
    for k in 0..10 {
        let _ = game.add_player(player("P"));
        assert!(game.players.len() <= MAX_PLAYERS);
        assert_eq!(game.players.len(), std::cmp::min(k + 1, 3));
    }
}

#[test]
fn reset_empties_the_roster() {
    let mut game = full_game();
    game.reset();
    assert!(game.players.is_empty());
    assert!(!game.is_ready());
    let outbox = game.add_player(player("N")).unwrap();
    assert_eq!(texts(&outbox), vec![line(0, "Waiting for opponent...\n")]);
}

#[test]
fn match_starts_with_the_whole_countdown() {
    assert_eq!(full_game().start(), Some(Stage::Countdown(3)));
}

#[test]
fn countdown_counts_down_to_the_first_turn() {
    let game = full_game();
    let Step { stage, outbox, pause } = game.show_countdown(3);
    assert_eq!(stage, Stage::Countdown(2));
    assert!(pause);
    assert_eq!(
        texts(&outbox),
        vec![
            line(0, "Game starts in 3...\n"),
            line(1, "Game starts in 3...\n"),
            line(2, "Game starts in 3...\n"),
        ]
    );
    let step = game.show_countdown(2);
    assert_eq!(step.stage, Stage::Countdown(1));
    assert!(step.pause);
    assert_eq!(texts(&step.outbox)[1], line(1, "Game starts in 2...\n"));
    let step = game.show_countdown(1);
    assert_eq!(step.stage, Stage::TurnOf(0));
    assert!(step.pause);
    assert_eq!(texts(&step.outbox)[2], line(2, "Game starts in 1...\n"));
}

#[test]
fn countdown_with_no_step_left_sends_nothing() {
    let step = full_game().show_countdown(0);
    assert_eq!(step.stage, Stage::TurnOf(0));
    assert!(!step.pause);
    assert!(step.outbox.is_empty());
}

#[test]
fn grids_are_shown_to_every_player() {
    let mut game = full_game();
    game.players[1].grid.fire(Coordinate::new(0, 0));
    game.players[1].grid.fire(Coordinate::new(9, 9));
    game.players[0].grid.fire(Coordinate::new(4, 4));
    let outbox = game.show_grid(10, 10);
    assert_eq!(
        texts(&outbox),
        vec![
            line(0, "<radar>"),
            line(0, "\nYour grid:"),
            line(0, "<fleet>"),
            line(1, "<radar>"),
            line(1, "\nYour grid:"),
            line(1, "<fleet>"),
            line(2, "<radar>"),
            line(2, "\nYour grid:"),
            line(2, "<fleet>"),
        ]
    );
    match &outbox[0].notice {
        Notice::Radar(seen) => {
            assert_eq!((seen.width, seen.height), (10, 10));
            assert_eq!(marks(seen), vec![vec![(0, 0, true)], vec![(9, 9, false)]]);
            assert!(seen.hits.is_empty());
        }
        _ => panic!("no radar"),
    }
    match &outbox[3].notice {
        Notice::Radar(seen) => assert!(seen.ships.is_empty()),
        _ => panic!("no radar"),
    }
    match &outbox[6].notice {
        Notice::Radar(seen) => assert_eq!(marks(seen), vec![vec![(4, 4, true)]]),
        _ => panic!("no radar"),
    }
    match &outbox[2].notice {
        Notice::Fleet(own) => {
            assert_eq!(marks(own), vec![vec![(0, 0, false), (1, 0, false)], vec![(4, 4, true)]]);
            assert_eq!(shots(own), vec![(4, 4)]);
        }
        _ => panic!("no fleet"),
    }
    match &outbox[5].notice {
        Notice::Fleet(own) => {
            assert_eq!(marks(own), vec![vec![(0, 0, true), (1, 0, false)], vec![(4, 4, false)]]);
            assert_eq!(shots(own), vec![(0, 0), (9, 9)]);
        }
        _ => panic!("no fleet"),
    }
}

#[test]
fn radar_has_the_size_asked_for() {
    let game = full_game();
    let outbox = game.show_grid(7, 5);
    match &outbox[0].notice {
        Notice::Radar(seen) => assert_eq!((seen.width, seen.height), (7, 5)),
        _ => panic!("no radar"),
    }
    match &outbox[2].notice {
        Notice::Fleet(own) => assert_eq!((own.width, own.height), (10, 10)),
        _ => panic!("no fleet"),
    }
}

#[test]
fn turn_opens_with_grids_prompt_and_announcement() {
    let mut game = full_game();
    let step = game.open_turn(1, 10, 10);
    assert_eq!(step.stage, Stage::Aiming(1));
    assert!(!step.pause);
    let sent = texts(&step.outbox);
    assert_eq!(sent.len(), 12);
    assert_eq!(sent[0], line(0, "<radar>"));
    assert_eq!(sent[8], line(2, "<fleet>"));
    assert_eq!(
        sent[9..].to_vec(),
        vec![line(1, "Your turn to shoot C: "), line(0, "B's turn.\n"), line(2, "B's turn.\n")]
    );
    assert_eq!(game.players.len(), 3);
}

#[test]
fn turn_is_announced_to_the_others_in_roster_order() {
    let mut game = full_game();
    let sent = texts(&game.open_turn(0, 10, 10).outbox);
    assert_eq!(
        sent[9..].to_vec(),
        vec![line(0, "Your turn to shoot B: "), line(1, "A's turn.\n"), line(2, "A's turn.\n")]
    );
    let sent = texts(&game.open_turn(2, 10, 10).outbox);
    assert_eq!(
        sent[9..].to_vec(),
        vec![line(2, "Your turn to shoot A: "), line(0, "C's turn.\n"), line(1, "C's turn.\n")]
    );
}

#[test]
fn hit_keeps_the_turn() {
    let mut game = full_game();
    let step = game.shoot(0, "A1", 10, 10);
    assert_eq!(step.stage, Stage::TurnOf(0));
    assert!(!step.pause);
    assert_eq!(
        texts(&step.outbox),
        vec![
            line(0, "Hit!\n"),
            line(0, "B has 2 ships remaining.\n"),
            line(1, "A is firing at A1\n"),
        ]
    );
    assert_eq!(marks(&game.players[1].grid), vec![vec![(0, 0, true), (1, 0, false)], vec![(4, 4, false)]]);
    assert_eq!(shots(&game.players[1].grid), vec![(0, 0)]);
    assert!(game.players[0].grid.hits.is_empty());
    assert!(game.players[2].grid.hits.is_empty());
    assert_eq!(marks(&game.players[0].grid), marks(&fleet_grid()));
    assert_eq!(marks(&game.players[2].grid), marks(&fleet_grid()));
}

#[test]
fn miss_passes_the_turn_on() {
    let mut game = full_game();
    let step = game.shoot(0, "J10", 10, 10);
    assert_eq!(step.stage, Stage::TurnOf(1));
    assert_eq!(
        texts(&step.outbox),
        vec![
            line(0, "Missed.\n"),
            line(0, "B has 2 ships remaining.\n"),
            line(1, "A is firing at J10\n"),
        ]
    );
    assert_eq!(marks(&game.players[1].grid), marks(&fleet_grid()));
    assert_eq!(shots(&game.players[1].grid), vec![(9, 9)]);
    let step = game.shoot(1, "C3", 10, 10);
    assert_eq!(step.stage, Stage::TurnOf(2));
    assert_eq!(shots(&game.players[2].grid), vec![(2, 2)]);
    let step = game.shoot(2, "C3", 10, 10);
    assert_eq!(step.stage, Stage::TurnOf(0));
    assert_eq!(shots(&game.players[0].grid), vec![(2, 2)]);
    assert_eq!(texts(&step.outbox)[2], line(0, "C is firing at C3\n"));
}

#[test]
fn invalid_token_changes_nothing() {
    let mut game = full_game();
    for token in ["", "K1", "A11", "a1", "11", "A1!", "hello"] {
        let step = game.shoot(1, token, 10, 10);
        assert_eq!(step.stage, Stage::TurnOf(1));
        assert!(!step.pause);
        assert_eq!(texts(&step.outbox), vec![line(1, "Your missile went to space!\n")]);
    }
    for p in game.players.iter() {
        assert!(p.grid.hits.is_empty());
        assert_eq!(marks(&p.grid), marks(&fleet_grid()));
    }
    assert_eq!(game.players.len(), 3);
}

#[test]
fn token_is_held_to_the_size_given() {
    let mut game = full_game();
    let step = game.shoot(0, "E5", 4, 10);
    assert_eq!(step.stage, Stage::TurnOf(0));
    assert_eq!(texts(&step.outbox), vec![line(0, "Your missile went to space!\n")]);
    let step = game.shoot(0, "E5", 5, 5);
    assert_eq!(texts(&step.outbox)[0], line(0, "Hit!\n"));
}

#[test]
fn sinking_a_ship_lowers_the_count() {
    let mut game = full_game();
    let step = game.shoot(2, "E5", 10, 10);
    assert_eq!(step.stage, Stage::TurnOf(2));
    assert_eq!(
        texts(&step.outbox),
        vec![
            line(2, "Hit!\n"),
            line(2, "A has 1 ships remaining.\n"),
            line(0, "C is firing at E5\n"),
        ]
    );
    game.shoot(2, "A1", 10, 10);
    let step = game.shoot(2, "B1", 10, 10);
    assert_eq!(texts(&step.outbox)[1], line(2, "A has 0 ships remaining.\n"));
    assert_eq!(step.stage, Stage::TurnOf(2));
    assert!(game.players[0].grid.all_sunk());
}

#[test]
fn repeated_shot_is_recorded_again_and_still_hits() {
    let mut game = full_game();
    game.shoot(0, "A1", 10, 10);
    let step = game.shoot(0, "A1", 10, 10);
    assert_eq!(step.stage, Stage::TurnOf(0));
    assert_eq!(texts(&step.outbox)[0], line(0, "Hit!\n"));
    assert_eq!(shots(&game.players[1].grid), vec![(0, 0), (0, 0)]);
    assert_eq!(marks(&game.players[1].grid), vec![vec![(0, 0, true), (1, 0, false)], vec![(4, 4, false)]]);
}

#[test]
fn player_with_no_ship_afloat_loses() {
    let mut game = full_game();
    sink_all(&mut game.players[1].grid);
    let step = game.open_turn(1, 10, 10);
    assert_eq!(step.stage, Stage::MatchOver);
    assert!(!step.pause);
    assert_eq!(texts(&step.outbox), vec![line(1, "C won.\n"), line(2, "You won!\n")]);
    assert!(game.players.is_empty());
    assert!(!game.is_ready());
}

#[test]
fn whole_match_from_lobby_to_win() {
    let mut game = Game::default();
    for name in ["A", "B", "C"] {
        assert!(!game.is_ready());
        game.add_player(player(name)).unwrap();
    }
    assert!(game.is_ready());
    let mut stage = game.start().unwrap();
    let mut script = vec!["J10", "A1", "zz", "B1", "E5", "A2"].into_iter();
    let mut log: Vec<(usize, String)> = Vec::new();
    let mut pauses = 0;
    let mut moves = 0;
    while stage != Stage::MatchOver {
        let step = match stage {
            Stage::Countdown(n) => game.show_countdown(n),
            Stage::TurnOf(i) => game.open_turn(i, 10, 10),
            Stage::Aiming(i) => game.shoot(i, script.next().unwrap(), 10, 10),
            Stage::MatchOver => unreachable!(),
        };
        if step.pause {
            pauses += 1;
        }
        log.extend(texts(&step.outbox).into_iter().filter(|(_, t)| !t.starts_with('<')));
        stage = step.stage;
        moves += 1;
        assert!(moves < 100);
    }
    assert_eq!(pauses, 3);
    assert!(script.next().is_none());
    assert!(game.players.is_empty());
    let last: Vec<(usize, String)> = log[log.len() - 2..].to_vec();
    assert_eq!(last, vec![line(2, "A won.\n"), line(0, "You won!\n")]);
    let heard_by_a: Vec<&str> =
        log.iter().filter(|(to, t)| *to == 0 && !t.contains("grid")).map(|(_, t)| t.as_str()).collect();
    assert_eq!(
        heard_by_a,
        vec![
            "Game starts in 3...\n",
            "Game starts in 2...\n",
            "Game starts in 1...\n",
            "Your turn to shoot B: ",
            "Missed.\n",
            "B has 2 ships remaining.\n",
            "B's turn.\n",
            "B's turn.\n",
            "B's turn.\n",
            "B's turn.\n",
            "B's turn.\n",
            "You won!\n",
        ]
    );
}

#[test]
fn game_can_be_played_again_after_a_win() {
    let mut game = full_game();
    sink_all(&mut game.players[0].grid);
    let step = game.open_turn(0, 10, 10);
    assert_eq!(step.stage, Stage::MatchOver);
    assert_eq!(texts(&step.outbox), vec![line(0, "B won.\n"), line(1, "You won!\n")]);
    let outbox = game.add_player(player("D")).unwrap();
    assert_eq!(texts(&outbox), vec![line(0, "Waiting for opponent...\n")]);
    game.add_player(player("E")).unwrap();
    let outbox = game.add_player(player("F")).unwrap();
    assert_eq!(texts(&outbox)[2], line(2, "Your opponent is D\n"));
    assert_eq!(game.start(), Some(Stage::Countdown(3)));
}

#[test]
fn new_player_has_an_empty_grid() {
    let p = Player::new(String::from("Ann"));
    assert_eq!(p.name, "Ann");
    assert_eq!((p.grid.width, p.grid.height), (0, 0));
    assert!(p.grid.ships.is_empty());
    assert!(p.grid.hits.is_empty());
}

#[test]
fn cohort_of_three_with_b_destroyed_makes_c_the_winner() {
    let mut game = Game::default();
    for name in ["A", "B", "C"] {
        game.add_player(player(name)).unwrap();
    }
    for ship in game.players[1].grid.ships.iter_mut() {
        for c in ship.coords.iter_mut() {
            c.is_hit = true;
        }
    }
    let mut stage = game.start().unwrap();
    while let Stage::Countdown(n) = stage {
        stage = game.show_countdown(n).stage;
    }
    assert_eq!(stage, Stage::TurnOf(0));
    assert_eq!(game.open_turn(0, 10, 10).stage, Stage::Aiming(0));
    assert_eq!(game.shoot(0, "J10", 10, 10).stage, Stage::TurnOf(1));
    let step = game.open_turn(1, 10, 10);
    assert_eq!(step.stage, Stage::MatchOver);
    assert_eq!(texts(&step.outbox), vec![line(1, "C won.\n"), line(2, "You won!\n")]);
    assert!(game.players.is_empty());
}
