use benja_man::board::{Board, Position};
use benja_man::enums::Direction;
use benja_man::game::{Game, RoundOutcome};
use benja_man::ghost::{AttackState, GhostKind, ReleaseState};
use benja_man::score::{GhostChain, PointValues, Score};
use benja_man::timer::Timer;

fn new_game() -> Game {
    Game::new(Board::new(32, 16))
}

#[test]
fn new_game_lays_out_the_round() {
    let game = new_game();
    assert_eq!(game.ben.position, Position::new(448, 272));
    assert_eq!(game.ben.direction, Direction::Right);
    assert_eq!(game.ghosts.len(), 4);
    assert_eq!(game.ghosts[0].kind, GhostKind::Caleb);
    assert_eq!(game.ghosts[0].release_state, ReleaseState::Released);
    assert_eq!(game.ghosts[1].release_state, ReleaseState::Caged);
    assert_eq!(game.dots.len(), 296);
    assert_eq!(game.power_ups.len(), 4);
    assert!(game.power_ups.contains(&Position::new(48, 944)));
    assert!(game.dots.contains(&Position::new(48, 976)));
    assert_eq!(game.score, Score(0));
}

#[test]
fn tick_moves_ben_along_his_direction() {
    let mut game = new_game();
    let events = game.tick(None, 16);
    assert_eq!(game.ben.position, Position::new(452, 272));
    assert_eq!(events.direction_changed, None);
    assert_eq!(events.outcome, None);
}

#[test]
fn turn_request_waits_until_centred() {
    let mut game = new_game();
    game.tick(Some(Direction::Up), 16);
    assert_eq!(game.ben.direction, Direction::Right);
    assert_eq!(game.ben.next_direction, Some(Direction::Up));
}

#[test]
fn eating_a_dot_scores_and_removes_it() {
    let mut game = new_game();
    game.ben.position = Position::new(48, 976);
    game.ben.direction = Direction::Left;
    let events = game.tick(None, 16);
    assert!(events.dot_eaten);
    assert_eq!(game.score.0, 10);
    assert_eq!(game.dots.len(), 295);
    assert!(!game.dots.contains(&Position::new(48, 976)));
}

#[test]
fn power_up_resets_the_chain_and_scares_the_ghosts() {
    let mut game = new_game();
    game.chain = GhostChain(3);
    game.ben.position = Position::new(48, 944);
    let events = game.tick(None, 16);
    assert!(events.power_up_consumed);
    assert_eq!(game.chain.0, 0);
    assert_eq!(game.score.0, 50);
    assert_eq!(game.power_ups.len(), 3);
    for g in game.ghosts.iter() {
        assert_eq!(g.attack_state, AttackState::Scared);
    }
}

#[test]
fn catch_after_power_up_scores_200() {
    let mut game = new_game();
    game.chain = GhostChain(3);
    game.ben.position = Position::new(48, 944);
    game.ghosts[0].position = Position::new(48, 912);
    game.ghosts[0].attack_state = AttackState::Scared;
    let events = game.tick(None, 16);
    assert!(events.power_up_consumed);
    assert_eq!(events.ghost_points, 200);
    assert_eq!(events.ghosts_caught, 1);
    assert_eq!(game.chain.0, 1);
    assert_eq!(game.score.0, 250);
    assert_eq!(game.ghosts[0].release_state, ReleaseState::Respawning);
}

#[test]
fn touching_an_attacking_ghost_loses() {
    let mut game = new_game();
    game.ghosts[0].position = Position::new(452, 272);
    let events = game.tick(None, 16);
    assert_eq!(events.outcome, Some(RoundOutcome::Lost));
}

#[test]
fn no_dots_left_wins() {
    let mut game = new_game();
    game.dots.clear();
    let events = game.tick(None, 16);
    assert_eq!(events.outcome, Some(RoundOutcome::Won));
}

#[test]
fn reset_restores_the_round() {
    let mut game = new_game();
    game.ben.position = Position::new(48, 976);
    game.ben.direction = Direction::Left;
    game.tick(None, 16);
    game.ghosts[1].release_state = ReleaseState::Respawning;
    game.reset();
    assert_eq!(game.score.0, 0);
    assert_eq!(game.dots.len(), 296);
    assert_eq!(game.ben.position, Position::new(448, 272));
    assert_eq!(game.ben.direction, Direction::Right);
    assert_eq!(game.ghosts[1].release_state, ReleaseState::Caged);
    assert_eq!(game.release_timer.0.elapsed, 0);
}

#[test]
fn first_ghost_leaves_the_den_after_five_seconds() {
    let mut game = new_game();
    for _ in 0..4 {
        game.tick(None, 1000);
    }
    assert_eq!(game.ghosts[1].release_state, ReleaseState::Caged);
    game.tick(None, 1000);
    assert_eq!(game.ghosts[1].release_state, ReleaseState::Releasing);
}

#[test]
fn timer_counts_and_holds() {
    let mut t = Timer::from_millis(100);
    t.tick(40);
    assert_eq!(t.elapsed, 40);
    assert!(!t.finished());
    t.tick(u64::MAX);
    assert_eq!(t.elapsed, 100);
    assert!(t.finished());
    t.tick(5);
    assert_eq!(t.elapsed, 100);
    t.reset();
    assert_eq!(t.elapsed, 0);
}

#[test]
fn score_saturates() {
    let mut s = Score(u64::MAX - 5);
    s.add(3);
    assert_eq!(s.0, u64::MAX - 2);
    s.add(10);
    assert_eq!(s.0, u64::MAX);
}

#[test]
fn standard_point_values() {
    let pv = PointValues::default();
    assert_eq!(pv.dot, 10);
    assert_eq!(pv.power_up, 50);
    assert_eq!(pv.first_ghost, 200);
    assert_eq!(pv.fourth_ghost, 1600);
    assert_eq!(pv.key, 5000);
}
