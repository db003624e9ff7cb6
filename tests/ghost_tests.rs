use benja_man::board::{Board, Position};
use benja_man::ghost::{
    ben_ghost_collision, ghost_movement, ghost_release, ghost_respawn, scare_ghosts, AttackState,
    GhostAgent, GhostKind, ReleaseState,
};
use benja_man::path::Path;
use benja_man::score::{GhostChain, PointValues, Score};
use benja_man::timer::{GhostReleaseTimer, GhostScareTimer};

fn walled_cell() -> Board {
    let rows: Vec<Vec<char>> = ["jhi", "d_f", "lbk"].iter().map(|r| r.chars().collect()).collect();
    Board::from_layout(&rows, 32, 16).unwrap()
}

fn corridor() -> Board {
    let rows: Vec<Vec<char>> = ["jhhhhi", "d____f", "lbbbbk"]
        .iter()
        .map(|r| r.chars().collect())
        .collect();
    Board::from_layout(&rows, 32, 16).unwrap()
}

fn agent(kind: GhostKind, x: i64, y: i64, attack: AttackState, release: ReleaseState) -> GhostAgent {
    GhostAgent {
        kind,
        position: Position::new(x, y),
        attack_state: attack,
        release_state: release,
        path: Path::new(),
        speed: 2,
    }
}

#[test]
fn power_up_then_two_catches_score_200_then_400() {
    let board = walled_cell();
    let ben = Position::new(48, 48);
    let mut ghosts = vec![
        agent(GhostKind::Harris, 48, 48, AttackState::Attacking, ReleaseState::Released),
        agent(GhostKind::Samson, 48, 400, AttackState::Attacking, ReleaseState::Released),
    ];
    let mut timer = GhostScareTimer::default();
    let mut chain = GhostChain(0);
    let mut score = Score(0);
    let pv = PointValues::default();
    scare_ghosts(&mut ghosts, &mut timer, true, 16);
    assert_eq!(ghosts[0].attack_state, AttackState::Scared);
    assert_eq!(ghosts[1].attack_state, AttackState::Scared);

    let first = ben_ghost_collision(&ben, &mut ghosts, &board, &mut chain, &pv);
    score.add(first.points);
    assert_eq!(first.points, 200);
    assert!(!first.ben_caught);
    assert_eq!(chain.0, 1);
    assert_eq!(score.0, 200);
    assert_eq!(ghosts[0].release_state, ReleaseState::Respawning);
    assert_eq!(ghosts[1].release_state, ReleaseState::Released);

    ghosts[1].position = Position::new(16, 48);
    let second = ben_ghost_collision(&ben, &mut ghosts, &board, &mut chain, &pv);
    score.add(second.points);
    assert_eq!(second.points, 400);
    assert_eq!(chain.0, 2);
    assert_eq!(score.0, 600);
    assert_eq!(ghosts[0].release_state, ReleaseState::Respawning);
    assert_eq!(ghosts[1].release_state, ReleaseState::Respawning);
}

#[test]
fn two_catches_in_one_tick_score_in_order() {
    let board = walled_cell();
    let ben = Position::new(48, 48);
    let mut ghosts = vec![
        agent(GhostKind::Harris, 48, 48, AttackState::Scared, ReleaseState::Released),
        agent(GhostKind::Samson, 80, 48, AttackState::Scared, ReleaseState::Released),
    ];
    let mut chain = GhostChain(0);
    let r = ben_ghost_collision(&ben, &mut ghosts, &board, &mut chain, &PointValues::default());
    assert_eq!(r.points, 600);
    assert_eq!(r.caught, 2);
    assert_eq!(chain.0, 2);
    assert!(ghosts[0].path.is_empty());
}

#[test]
fn catch_awards_saturate_at_the_fourth() {
    let board = walled_cell();
    let ben = Position::new(48, 48);
    let mut ghosts: Vec<GhostAgent> = (0..5)
        .map(|_| agent(GhostKind::Claflin, 48, 48, AttackState::Scared, ReleaseState::Released))
        .collect();
    let mut chain = GhostChain(0);
    let r = ben_ghost_collision(&ben, &mut ghosts, &board, &mut chain, &PointValues::default());
    assert_eq!(r.points, 200 + 400 + 800 + 1600 + 1600);
    assert_eq!(chain.0, 5);
}

#[test]
fn ghost_tiers() {
    let pv = PointValues::default();
    assert_eq!(pv.ghost_points(0), 200);
    assert_eq!(pv.ghost_points(1), 400);
    assert_eq!(pv.ghost_points(2), 800);
    assert_eq!(pv.ghost_points(3), 1600);
    assert_eq!(pv.ghost_points(4), 1600);
    assert_eq!(pv.ghost_points(u64::MAX), 1600);
}

#[test]
fn attacking_ghost_catches_ben() {
    let board = walled_cell();
    let mut ghosts = vec![agent(GhostKind::Caleb, 48, 80, AttackState::Attacking, ReleaseState::Released)];
    let mut chain = GhostChain(2);
    let r = ben_ghost_collision(&Position::new(48, 48), &mut ghosts, &board, &mut chain, &PointValues::default());
    assert!(r.ben_caught);
    assert_eq!(r.points, 0);
    assert_eq!(chain.0, 2);
}

#[test]
fn returning_ghost_cannot_be_caught_again() {
    let board = walled_cell();
    let mut ghosts = vec![agent(GhostKind::Caleb, 48, 48, AttackState::Scared, ReleaseState::Respawning)];
    let mut chain = GhostChain(1);
    let r = ben_ghost_collision(&Position::new(48, 48), &mut ghosts, &board, &mut chain, &PointValues::default());
    assert!(!r.ben_caught);
    assert_eq!(r.points, 0);
    assert_eq!(chain.0, 1);
}

#[test]
fn distant_ghost_is_untouched() {
    let board = walled_cell();
    let mut ghosts = vec![agent(GhostKind::Caleb, 50, 50, AttackState::Scared, ReleaseState::Released)];
    let mut chain = GhostChain(0);
    let r = ben_ghost_collision(&Position::new(48, 48), &mut ghosts, &board, &mut chain, &PointValues::default());
    assert_eq!(r.points, 0);
    assert_eq!(ghosts[0].release_state, ReleaseState::Released);
}

#[test]
fn scare_lasts_its_duration_then_ends_for_all() {
    let mut ghosts = vec![
        agent(GhostKind::Caleb, 0, 0, AttackState::Attacking, ReleaseState::Released),
        agent(GhostKind::Harris, 0, 0, AttackState::Attacking, ReleaseState::Caged),
        agent(GhostKind::Samson, 0, 0, AttackState::Attacking, ReleaseState::Respawning),
    ];
    let mut timer = GhostScareTimer::default();
    scare_ghosts(&mut ghosts, &mut timer, true, 0);
    assert_eq!(ghosts[0].attack_state, AttackState::Scared);
    assert_eq!(ghosts[1].attack_state, AttackState::Scared);
    assert_eq!(ghosts[2].attack_state, AttackState::Attacking);
    scare_ghosts(&mut ghosts, &mut timer, false, 9999);
    assert_eq!(ghosts[0].attack_state, AttackState::Scared);
    assert_eq!(timer.0.elapsed, 9999);
    scare_ghosts(&mut ghosts, &mut timer, false, 1);
    assert_eq!(ghosts[0].attack_state, AttackState::Attacking);
    assert_eq!(ghosts[1].attack_state, AttackState::Attacking);
    assert_eq!(timer.0.elapsed, 0);
}

#[test]
fn scare_timer_idles_without_scared_ghosts() {
    let mut ghosts = vec![agent(GhostKind::Caleb, 0, 0, AttackState::Attacking, ReleaseState::Released)];
    let mut timer = GhostScareTimer::default();
    scare_ghosts(&mut ghosts, &mut timer, false, 500);
    assert_eq!(timer.0.elapsed, 0);
}

#[test]
fn second_power_up_restarts_the_scare() {
    let mut ghosts = vec![agent(GhostKind::Caleb, 0, 0, AttackState::Attacking, ReleaseState::Released)];
    let mut timer = GhostScareTimer::default();
    scare_ghosts(&mut ghosts, &mut timer, true, 6000);
    assert_eq!(timer.0.elapsed, 6000);
    scare_ghosts(&mut ghosts, &mut timer, true, 6000);
    assert_eq!(timer.0.elapsed, 6000);
    assert_eq!(ghosts[0].attack_state, AttackState::Scared);
}

#[test]
fn caged_ghost_waits_for_the_release_interval() {
    let board = Board::new(32, 16);
    let mut ghosts = vec![
        GhostAgent::new(GhostKind::Harris, &board),
        GhostAgent::new(GhostKind::Samson, &board),
    ];
    let mut timer = GhostReleaseTimer::default();
    for _ in 0..4 {
        assert_eq!(ghost_release(&mut ghosts, &mut timer, &board, 1000), Some(0));
        assert_eq!(ghosts[0].release_state, ReleaseState::Caged);
    }
    assert_eq!(ghost_release(&mut ghosts, &mut timer, &board, 999), Some(0));
    assert_eq!(ghosts[0].release_state, ReleaseState::Caged);
    assert_eq!(ghost_release(&mut ghosts, &mut timer, &board, 1), Some(0));
    assert_eq!(ghosts[0].release_state, ReleaseState::Releasing);
    assert_eq!(ghosts[1].release_state, ReleaseState::Caged);
    assert_eq!(timer.0.elapsed, 0);
}

#[test]
fn only_one_ghost_releases_at_a_time() {
    let board = Board::new(32, 16);
    let mut ghosts = vec![
        GhostAgent::new(GhostKind::Harris, &board),
        GhostAgent::new(GhostKind::Samson, &board),
    ];
    ghosts[0].release_state = ReleaseState::Releasing;
    let mut timer = GhostReleaseTimer::default();
    assert_eq!(ghost_release(&mut ghosts, &mut timer, &board, 10000), Some(0));
    assert_eq!(ghosts[0].position, Position::new(386, 560));
    assert_eq!(ghosts[1].release_state, ReleaseState::Caged);
    assert_eq!(timer.0.elapsed, 0);
}

#[test]
fn releasing_ghost_centres_then_rises_then_is_released() {
    let board = Board::new(32, 16);
    let mut ghosts = vec![agent(GhostKind::Samson, 450, 560, AttackState::Attacking, ReleaseState::Releasing)];
    let mut timer = GhostReleaseTimer::default();
    ghost_release(&mut ghosts, &mut timer, &board, 16);
    assert_eq!(ghosts[0].position, Position::new(448, 560));
    ghost_release(&mut ghosts, &mut timer, &board, 16);
    assert_eq!(ghosts[0].position, Position::new(448, 562));
    ghosts[0].position = Position::new(448, 656);
    ghost_release(&mut ghosts, &mut timer, &board, 16);
    assert_eq!(ghosts[0].release_state, ReleaseState::Released);
    assert_eq!(ghosts[0].position, Position::new(448, 656));
}

#[test]
fn nothing_to_release() {
    let board = Board::new(32, 16);
    let mut ghosts = vec![GhostAgent::new(GhostKind::Caleb, &board)];
    let mut timer = GhostReleaseTimer::default();
    assert_eq!(ghost_release(&mut ghosts, &mut timer, &board, 1000), None);
    assert_eq!(timer.0.elapsed, 0);
}

#[test]
fn released_ghost_plans_then_follows_its_path() {
    let board = corridor();
    let mut ghosts = vec![agent(GhostKind::Caleb, 48, 48, AttackState::Attacking, ReleaseState::Released)];
    ghosts[0].speed = 32;
    let ben = Position::new(144, 48);
    ghost_movement(&mut ghosts, &ben, &board);
    assert_eq!(ghosts[0].position, Position::new(48, 48));
    assert_eq!(ghosts[0].path.len(), 2);
    ghost_movement(&mut ghosts, &ben, &board);
    assert_eq!(ghosts[0].position, Position::new(80, 48));
    assert_eq!(ghosts[0].path.len(), 1);
}

#[test]
fn caged_ghost_does_not_pursue() {
    let board = corridor();
    let mut ghosts = vec![agent(GhostKind::Harris, 48, 48, AttackState::Attacking, ReleaseState::Caged)];
    ghost_movement(&mut ghosts, &Position::new(144, 48), &board);
    assert_eq!(ghosts[0].position, Position::new(48, 48));
    assert!(ghosts[0].path.is_empty());
}

#[test]
fn caught_ghost_returns_to_the_den_and_is_caged() {
    let board = Board::new(32, 16);
    let mut ghosts = vec![agent(GhostKind::Caleb, 450, 656, AttackState::Scared, ReleaseState::Respawning)];
    ghost_respawn(&mut ghosts, &board);
    assert_eq!(ghosts[0].position, Position::new(432, 656));
    assert_eq!(ghosts[0].path.len(), 7);
    for _ in 0..6 {
        ghost_respawn(&mut ghosts, &board);
        assert_eq!(ghosts[0].release_state, ReleaseState::Respawning);
    }
    ghost_respawn(&mut ghosts, &board);
    assert_eq!(ghosts[0].position, Position::new(448, 560));
    assert_eq!(ghosts[0].release_state, ReleaseState::Caged);
    assert_eq!(ghosts[0].attack_state, AttackState::Attacking);
}

#[test]
fn new_and_reset_ghosts_start_at_their_posts() {
    let board = Board::new(32, 16);
    let caleb = GhostAgent::new(GhostKind::Caleb, &board);
    assert_eq!(caleb.position, Position::new(448, 656));
    assert_eq!(caleb.release_state, ReleaseState::Released);
    let mut harris = GhostAgent::new(GhostKind::Harris, &board);
    assert_eq!(harris.position, Position::new(384, 560));
    assert_eq!(harris.release_state, ReleaseState::Caged);
    harris.position = Position::new(0, 0);
    harris.attack_state = AttackState::Scared;
    harris.release_state = ReleaseState::Respawning;
    harris.path.push_back(Position::new(1, 1));
    harris.reset(&board);
    assert_eq!(harris.position, Position::new(384, 560));
    assert_eq!(harris.attack_state, AttackState::Attacking);
    assert_eq!(harris.release_state, ReleaseState::Caged);
    assert!(harris.path.is_empty());
}
