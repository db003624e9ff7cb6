use vstd::prelude::*;
use crate::ben::{Ben, ben_movement, ben_start, ben_step};
use crate::board::{Board, BoardTile, Position};
use crate::collectibles::{collect_index, collectible_at, init_dots_and_power_ups, laid_out};
use crate::constants::{BEN_SPAWN_ROW, GHOST_RELEASE_MILLIS, GHOST_SCARE_MILLIS, GHOST_SPEED_DEFAULT};
use crate::enums::Direction;
use crate::ghost::{
    GhostAgent, GhostKind, catch_count, chain_after, lemma_catch_count_bound, catch_points, catch_result, deadly, ghost_movement,
    ghost_release, ghost_respawn, ghost_start, ghosts_wf, pursuit_step, release_result,
    respawn_step, saturating, scare_ghosts, scare_update, start_release_state, ben_ghost_collision,
};
use crate::path::all_in_world;
use crate::score::{GhostChain, PointValues, Score};
use crate::timer::{GhostReleaseTimer, GhostScareTimer, Timer};

verus! {

/// How a round ended.
#[derive(Clone, Copy, Debug, PartialEq, Eq, Structural)]
pub enum RoundOutcome {
    Won,
    Lost,
}

/// What one tick emitted for the presentation layer.
#[derive(Clone, Copy, Debug, PartialEq, Eq, Structural)]
pub struct TickEvents {
    /// Ben's new direction, when it changed.
    pub direction_changed: Option<Direction>,
    pub dot_eaten: bool,
    pub power_up_consumed: bool,
    /// Points for the ghosts caught this tick.
    pub ghost_points: u64,
    /// How many ghosts were caught this tick.
    pub ghosts_caught: u64,
    pub outcome: Option<RoundOutcome>,
}

/// The whole simulation: board, actors, collectibles, score and timers.
pub struct Game {
    pub board: Board,
    pub ben: Ben,
    pub ghosts: Vec<GhostAgent>,
    pub dots: Vec<Position>,
    pub power_ups: Vec<Position>,
    pub score: Score,
    pub chain: GhostChain,
    pub scare_timer: GhostScareTimer,
    pub release_timer: GhostReleaseTimer,
    pub point_values: PointValues,
}

/// The item list after Ben's pick-up (see `collect_index`).
pub open spec fn after_pickup(items: Seq<Position>, pick: Option<int>) -> Seq<Position> {
    match pick {
        Some(k) => items.remove(k),
        None => items,
    }
}

/// The ghosts pass through the phases of a tick: `g1` after Ben's contact,
/// then the threat update, `g3` after pursuit, `g4` after release, and `gf`
/// after the return to the den.
pub open spec fn ghost_phases(
    board: &Board,
    ben: Position,
    power_up_consumed: bool,
    delta: int,
    gs: Seq<GhostAgent>,
    scare0: Timer,
    release0: Timer,
    g1: Seq<GhostAgent>,
    g3: Seq<GhostAgent>,
    g4: Seq<GhostAgent>,
    gf: Seq<GhostAgent>,
    scare_f: Timer,
    release_f: Timer,
) -> bool {
    let g2 = scare_update(g1, scare0, power_up_consumed, delta).0;
    &&& catch_result(ben, gs, g1, board.spec_cell_size())
    &&& scare_update(g1, scare0, power_up_consumed, delta).1 == scare_f
    &&& g3.len() == g2.len()
    &&& forall|i: int| 0 <= i < g2.len() ==> pursuit_step(#[trigger] g2[i], g3[i], ben, board)
    &&& release_result(g3, release0, g4, release_f, board, delta)
    &&& gf.len() == g4.len()
    &&& forall|i: int| 0 <= i < g4.len() ==> respawn_step(#[trigger] g4[i], gf[i], board)
}

/// Some intermediate ghost lists connect `s`'s ghosts and timers to `f`'s
/// through the phases of one tick (see `ghost_phases`).
pub open spec fn ghosts_advanced(
    s: Game,
    f: Game,
    ben: Position,
    power_up_consumed: bool,
    delta: int,
) -> bool {
    exists|g1: Seq<GhostAgent>, g3: Seq<GhostAgent>, g4: Seq<GhostAgent>|
        #[trigger] ghost_phases(
            &s.board,
            ben,
            power_up_consumed,
            delta,
            s.ghosts@,
            s.scare_timer.0,
            s.release_timer.0,
            g1,
            g3,
            g4,
            f.ghosts@,
            f.scare_timer.0,
            f.release_timer.0,
        )
}

pub open spec fn sat_add(a: int, b: int) -> u64 {
    saturating(a + b)
}

/// The four ghosts as they start a round, in the order Caleb, Harris, Claflin, Samson.
pub open spec fn fresh_ghosts(gs: Seq<GhostAgent>, board: &Board) -> bool {
    &&& gs.len() == 4
    &&& gs[0].kind == GhostKind::Caleb
    &&& gs[1].kind == GhostKind::Harris
    &&& gs[2].kind == GhostKind::Claflin
    &&& gs[3].kind == GhostKind::Samson
    &&& forall|i: int|
        0 <= i < 4 ==> {
            &&& (#[trigger] gs[i]).position == ghost_start(gs[i].kind, board)
            &&& gs[i].attack_state == crate::ghost::AttackState::Attacking
            &&& gs[i].release_state == start_release_state(gs[i].kind)
            &&& gs[i].path@ == Seq::<Position>::empty()
            &&& gs[i].speed == GHOST_SPEED_DEFAULT
        }
}

impl Game {
    pub open spec fn wf(&self) -> bool {
        &&& self.board.wf()
        &&& self.board.spec_height() > BEN_SPAWN_ROW
        &&& self.ben.wf()
        &&& ghosts_wf(self.ghosts@)
        &&& self.point_values.wf()
        &&& all_in_world(self.dots@)
        &&& all_in_world(self.power_ups@)
    }

    /// A round ready to start on `board`: everyone at the starting points,
    /// a dot or power-up on every cell that shows one, score and chain at zero.
    pub fn new(board: Board) -> (r: Game)
        requires
            board.wf(),
            board.spec_height() > BEN_SPAWN_ROW,
        ensures
            r.wf(),
            r.board == board,
            r.ben == Ben::spawn_spec(&board),
            fresh_ghosts(r.ghosts@, &board),
            laid_out(&board, BoardTile::Dot, r.dots@),
            laid_out(&board, BoardTile::PowerUp, r.power_ups@),
            r.score.0 == 0,
            r.chain.0 == 0,
            r.scare_timer.0 == Timer::from_millis_spec(GHOST_SCARE_MILLIS),
            r.release_timer.0 == Timer::from_millis_spec(GHOST_RELEASE_MILLIS),
            r.point_values.is_standard(),
    {
        let ben = Ben::spawn(&board);
        let mut ghosts: Vec<GhostAgent> = Vec::new();
        ghosts.push(GhostAgent::new(GhostKind::Caleb, &board));
        ghosts.push(GhostAgent::new(GhostKind::Harris, &board));
        ghosts.push(GhostAgent::new(GhostKind::Claflin, &board));
        ghosts.push(GhostAgent::new(GhostKind::Samson, &board));
        let (dots, power_ups) = init_dots_and_power_ups(&board);
        let g = Game {
            board,
            ben,
            ghosts,
            dots,
            power_ups,
            score: Score(0),
            chain: GhostChain(0),
            scare_timer: GhostScareTimer::default(),
            release_timer: GhostReleaseTimer::default(),
            point_values: PointValues::default(),
        };
        assert(ghosts_wf(g.ghosts@)) by {
            assert forall|i: int| 0 <= i < g.ghosts@.len() implies #[trigger] g.ghosts@[i].wf() by {}
        }
        g
    }

    /// Starts the round again on the same board: score to zero, Ben and the
    /// ghosts back at their starting points, every dot and power-up back, and
    /// the release countdown restarted.
    pub fn reset(&mut self)
        requires
            old(self).wf(),
        ensures
            final(self).wf(),
            final(self).board == old(self).board,
            final(self).score.0 == 0,
            final(self).ben == (Ben {
                position: ben_start(&old(self).board),
                direction: crate::constants::BEN_DIRECTION_DEFAULT,
                ..old(self).ben
            }),
            final(self).ghosts@.len() == old(self).ghosts@.len(),
            forall|i: int|
                0 <= i < old(self).ghosts@.len() ==> {
                    let a = #[trigger] old(self).ghosts@[i];
                    let b = final(self).ghosts@[i];
                    &&& b.kind == a.kind
                    &&& b.speed == a.speed
                    &&& b.position == ghost_start(a.kind, &old(self).board)
                    &&& b.attack_state == crate::ghost::AttackState::Attacking
                    &&& b.release_state == start_release_state(a.kind)
                    &&& b.path@ == Seq::<Position>::empty()
                },
            laid_out(&old(self).board, BoardTile::Dot, final(self).dots@),
            laid_out(&old(self).board, BoardTile::PowerUp, final(self).power_ups@),
            final(self).release_timer.0 == old(self).release_timer.0.spec_reset(),
            final(self).scare_timer == old(self).scare_timer,
            final(self).chain == old(self).chain,
            final(self).point_values == old(self).point_values,
    {
        let ghost gs = self.ghosts@;
        let n = self.ghosts.len();
        let mut i: usize = 0;
        while i < n
            invariant
                n == self.ghosts@.len(),
                n == gs.len(),
                gs == old(self).ghosts@,
                self.board == old(self).board,
                self.ben == old(self).ben,
                self.score == old(self).score,
                self.chain == old(self).chain,
                self.scare_timer == old(self).scare_timer,
                self.release_timer == old(self).release_timer,
                self.point_values == old(self).point_values,
                self.ben.wf(),
                self.point_values.wf(),
                self.board.wf(),
                self.board.spec_height() > BEN_SPAWN_ROW,
                ghosts_wf(gs),
                i <= n,
                forall|k: int| i <= k < n ==> self.ghosts@[k] == #[trigger] gs[k],
                forall|k: int|
                    0 <= k < i ==> {
                        let a = #[trigger] gs[k];
                        let b = self.ghosts@[k];
                        &&& b.wf()
                        &&& b.kind == a.kind
                        &&& b.speed == a.speed
                        &&& b.position == ghost_start(a.kind, &self.board)
                        &&& b.attack_state == crate::ghost::AttackState::Attacking
                        &&& b.release_state == start_release_state(a.kind)
                        &&& b.path@ == Seq::<Position>::empty()
                    },
            decreases n - i,
        {
            assert(gs[i as int].wf());
            let mut g = self.ghosts.remove(i);
            g.reset(&self.board);
            self.ghosts.insert(i, g);
            i = i + 1;
        }
        self.score = Score(0);
        self.ben.reset(&self.board);
        let (dots, power_ups) = init_dots_and_power_ups(&self.board);
        self.dots = dots;
        self.power_ups = power_ups;
        self.release_timer.0.reset();
        assert(ghosts_wf(self.ghosts@)) by {
            assert forall|k: int| 0 <= k < self.ghosts@.len() implies #[trigger] self.ghosts@[k].wf() by {
                assert(gs[k] == old(self).ghosts@[k]);
            }
        }
    }

    /// One fixed-order tick: record the requested turn; move Ben; pick up a
    /// dot, then a power-up (which zeroes the chain); resolve contact with the
    /// ghosts; update the threat state; advance pursuit, release and return;
    /// then report a loss if an attacking ghost touched Ben, or a win if no
    /// dot is left.
    pub fn tick(&mut self, intent: Option<Direction>, delta_ms: u64) -> (r: TickEvents)
        requires
            old(self).wf(),
        ensures
            final(self).wf(),
            final(self).board == old(self).board,
            final(self).point_values == old(self).point_values,
            final(self).score.0 >= old(self).score.0,
            ({
                let s = *old(self);
                let f = *final(self);
                let board = &s.board;
                let cell = board.spec_cell_size();
                let b1 = match intent {
                    Some(d) => Ben { next_direction: Some(d), ..s.ben },
                    None => s.ben,
                };
                let moved = ben_step(b1, board);
                let p = moved.0.position;
                let dot = collect_index(board, p, s.dots@);
                let pu = collect_index(board, p, s.power_ups@);
                let score1 = if dot is Some {
                    sat_add(s.score.0 as int, s.point_values.dot as int)
                } else {
                    s.score.0
                };
                let score2 = if pu is Some {
                    sat_add(score1 as int, s.point_values.power_up as int)
                } else {
                    score1
                };
                let chain1 = if pu is Some {
                    0
                } else {
                    s.chain.0 as int
                };
                let points = catch_points(p, s.ghosts@, cell, s.point_values, chain1);
                let lost = exists|i: int|
                    0 <= i < s.ghosts@.len() && deadly(p, #[trigger] s.ghosts@[i], cell);
                &&& f.ben == moved.0
                &&& r.direction_changed == moved.1
                &&& f.dots@ == after_pickup(s.dots@, dot)
                &&& r.dot_eaten == dot is Some
                &&& f.power_ups@ == after_pickup(s.power_ups@, pu)
                &&& r.power_up_consumed == pu is Some
                &&& f.chain.0 == chain_after(pu is Some, s.chain.0 as int, p, s.ghosts@, cell)
                &&& pu is Some ==> f.chain.0 == catch_count(p, s.ghosts@, cell)
                &&& r.ghost_points == points
                &&& r.ghosts_caught == catch_count(p, s.ghosts@, cell)
                &&& f.score.0 == sat_add(score2 as int, points)
                &&& ghosts_advanced(s, f, p, pu is Some, delta_ms as int)
                &&& r.outcome == if lost {
                    Some(RoundOutcome::Lost)
                } else if f.dots@.len() == 0 {
                    Some(RoundOutcome::Won)
                } else {
                    None
                }
            }),
    {
        if let Some(d) = intent {
            self.ben.set_next_direction(d);
        }
        let direction_changed = ben_movement(&mut self.ben, &self.board);
        let p = self.ben.position;
        let mut dot_eaten = false;
        match collectible_at(&p, &self.dots, &self.board) {
            Some(k) => {
                self.dots.remove(k);
                self.score.add(self.point_values.dot);
                dot_eaten = true;
            },
            None => {},
        }
        let mut power_up_consumed = false;
        match collectible_at(&p, &self.power_ups, &self.board) {
            Some(k) => {
                self.power_ups.remove(k);
                self.score.add(self.point_values.power_up);
                self.chain.0 = 0;
                power_up_consumed = true;
            },
            None => {},
        }
        let ghost g0 = self.ghosts@;
        let collision = ben_ghost_collision(
            &p,
            &mut self.ghosts,
            &self.board,
            &mut self.chain,
            &self.point_values,
        );
        self.score.add(collision.points);
        let ghost g1 = self.ghosts@;
        scare_ghosts(&mut self.ghosts, &mut self.scare_timer, power_up_consumed, delta_ms);
        ghost_movement(&mut self.ghosts, &p, &self.board);
        let ghost g3 = self.ghosts@;
        ghost_release(&mut self.ghosts, &mut self.release_timer, &self.board, delta_ms);
        let ghost g4 = self.ghosts@;
        ghost_respawn(&mut self.ghosts, &self.board);
        proof {
            assert(ghost_phases(
                &self.board,
                p,
                power_up_consumed,
                delta_ms as int,
                g0,
                old(self).scare_timer.0,
                old(self).release_timer.0,
                g1,
                g3,
                g4,
                self.ghosts@,
                self.scare_timer.0,
                self.release_timer.0,
            ));
            assert(ghosts_advanced(*old(self), *self, p, power_up_consumed, delta_ms as int));
            lemma_catch_count_bound(p, g0, self.board.spec_cell_size());
        }
        let outcome = if collision.ben_caught {
            Some(RoundOutcome::Lost)
        } else if self.dots.len() == 0 {
            Some(RoundOutcome::Won)
        } else {
            None
        };
        TickEvents {
            direction_changed,
            dot_eaten,
            power_up_consumed,
            ghost_points: collision.points,
            ghosts_caught: collision.caught,
            outcome,
        }
    }
}

} // verus!
