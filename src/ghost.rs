use vstd::prelude::*;
use crate::board::{Board, Position, MAX_SPEED, WORLD_LIMIT};
use crate::constants::{GHOST_DEN_ROW, GHOST_EXIT_ROW, GHOST_SPEED_DEFAULT, GHOST_SPEED_RESPAWNING};
use crate::enums::CollisionType;
use crate::path::{
    Path, all_in_world, den_route, legal_step, legal_steps, lemma_pursuit_route_steps, prev_of,
    pursuit_route,
};
use crate::score::{GhostChain, PointValues, ghost_tier, MAX_AWARD};
use crate::timer::{GhostReleaseTimer, GhostScareTimer, Timer};
use crate::utils::{
    collided, den_exit, den_x, did_collide, get_caleb_spawn_coordinates,
    get_claflin_spawn_coordinates, get_den_exit_coordinates, get_harris_spawn_coordinates,
    get_samson_spawn_coordinates, ghost_spawn, get_ghost_spawn_coordinates,
};

verus! {

/// Largest number of ghosts that the systems below accept.
pub const MAX_GHOSTS: usize = 1048576;

/// Whether a ghost threatens Ben or can be caught by him.
#[derive(Clone, Copy, Debug, PartialEq, Eq, Structural, Hash)]
pub enum AttackState {
    Attacking,
    Scared,
}

/// Where a ghost stands in the cage / release / return cycle.
#[derive(Clone, Copy, Debug, PartialEq, Eq, Structural, Hash)]
pub enum ReleaseState {
    Caged,
    Releasing,
    Released,
    Respawning,
}

/// Which of the four ghosts this is; it fixes the starting point.
#[derive(Clone, Copy, Debug, PartialEq, Eq, Structural, Hash)]
pub enum GhostKind {
    Caleb,
    Harris,
    Claflin,
    Samson,
}

/// One pursuing agent.
pub struct GhostAgent {
    pub kind: GhostKind,
    pub position: Position,
    pub attack_state: AttackState,
    pub release_state: ReleaseState,
    pub path: Path,
    pub speed: i64,
}

/// The starting point of each ghost: Caleb above the ghost gate, the others in the den.
pub open spec fn ghost_start(kind: GhostKind, board: &Board) -> Position {
    let c = board.spec_cell_size();
    let y = board.y_of(GHOST_DEN_ROW as int);
    match kind {
        GhostKind::Caleb => den_exit(board),
        GhostKind::Harris => Position { x: (den_x(board) - 2 * c) as i64, y: y as i64 },
        GhostKind::Claflin => ghost_spawn(board),
        GhostKind::Samson => Position { x: (den_x(board) + 2 * c) as i64, y: y as i64 },
    }
}

pub open spec fn start_release_state(kind: GhostKind) -> ReleaseState {
    if kind == GhostKind::Caleb {
        ReleaseState::Released
    } else {
        ReleaseState::Caged
    }
}

pub open spec fn ghosts_wf(gs: Seq<GhostAgent>) -> bool {
    &&& gs.len() <= MAX_GHOSTS
    &&& forall|i: int| 0 <= i < gs.len() ==> #[trigger] gs[i].wf()
}

impl GhostAgent {
    pub open spec fn wf(&self) -> bool {
        &&& self.position.in_world()
        &&& 0 <= self.speed <= MAX_SPEED
        &&& all_in_world(self.path@)
    }

    /// A ghost of the given kind at its starting point, attacking, with no path.
    pub fn new(kind: GhostKind, board: &Board) -> (r: GhostAgent)
        requires
            board.wf(),
            board.spec_height() > GHOST_DEN_ROW,
        ensures
            r.wf(),
            r.kind == kind,
            r.position == ghost_start(kind, board),
            r.attack_state == AttackState::Attacking,
            r.release_state == start_release_state(kind),
            r.path@ == Seq::<Position>::empty(),
            r.speed == GHOST_SPEED_DEFAULT,
    {
        let position = start_position(kind, board);
        let release_state = match kind {
            GhostKind::Caleb => ReleaseState::Released,
            _ => ReleaseState::Caged,
        };
        GhostAgent {
            kind,
            position,
            attack_state: AttackState::Attacking,
            release_state,
            path: Path::new(),
            speed: GHOST_SPEED_DEFAULT,
        }
    }

    /// Puts the ghost back at its starting point, attacking, with no path.
    pub fn reset(&mut self, board: &Board)
        requires
            board.wf(),
            board.spec_height() > GHOST_DEN_ROW,
            old(self).wf(),
        ensures
            final(self).wf(),
            final(self).kind == old(self).kind,
            final(self).speed == old(self).speed,
            final(self).position == ghost_start(old(self).kind, board),
            final(self).attack_state == AttackState::Attacking,
            final(self).release_state == start_release_state(old(self).kind),
            final(self).path@ == Seq::<Position>::empty(),
    {
        self.position = start_position(self.kind, board);
        self.attack_state = AttackState::Attacking;
        self.release_state = match self.kind {
            GhostKind::Caleb => ReleaseState::Released,
            _ => ReleaseState::Caged,
        };
        self.path.clear();
    }
}

fn start_position(kind: GhostKind, board: &Board) -> (r: Position)
    requires
        board.wf(),
        board.spec_height() > GHOST_DEN_ROW,
    ensures
        r == ghost_start(kind, board),
        r.in_world(),
{
    match kind {
        GhostKind::Caleb => get_caleb_spawn_coordinates(board),
        GhostKind::Harris => get_harris_spawn_coordinates(board),
        GhostKind::Claflin => get_claflin_spawn_coordinates(board),
        GhostKind::Samson => get_samson_spawn_coordinates(board),
    }
}

// ---------------------------------------------------------------------------
// Threat state

/// Ghosts on their way back to the den are outside every threat-state effect.
pub open spec fn threat_affected(g: GhostAgent) -> bool {
    g.release_state != ReleaseState::Respawning
}

pub open spec fn frightened(g: GhostAgent) -> GhostAgent {
    if threat_affected(g) && g.attack_state == AttackState::Attacking {
        GhostAgent { attack_state: AttackState::Scared, ..g }
    } else {
        g
    }
}

pub open spec fn calmed(g: GhostAgent) -> GhostAgent {
    if threat_affected(g) && g.attack_state == AttackState::Scared {
        GhostAgent { attack_state: AttackState::Attacking, ..g }
    } else {
        g
    }
}

pub open spec fn any_scared(gs: Seq<GhostAgent>) -> bool {
    exists|i: int|
        0 <= i < gs.len() && threat_affected(gs[i]) && #[trigger] gs[i].attack_state
            == AttackState::Scared
}

/// One tick of the threat state: a power-up restarts the scare countdown and
/// scares every attacking ghost; while any ghost is scared the countdown runs,
/// and when it completes every scared ghost attacks again and it restarts.
pub open spec fn scare_update(gs: Seq<GhostAgent>, timer: Timer, consumed: bool, delta: int) -> (
    Seq<GhostAgent>,
    Timer,
) {
    let gs1 = if consumed {
        gs.map_values(|g: GhostAgent| frightened(g))
    } else {
        gs
    };
    let t1 = if consumed {
        timer.spec_reset()
    } else {
        timer
    };
    if any_scared(gs1) {
        let t2 = t1.spec_ticked(delta);
        if t2.spec_finished() {
            (gs1.map_values(|g: GhostAgent| calmed(g)), t2.spec_reset())
        } else {
            (gs1, t2)
        }
    } else {
        (gs1, t1)
    }
}

fn frighten_all(ghosts: &mut Vec<GhostAgent>)
    requires
        ghosts_wf(old(ghosts)@),
    ensures
        final(ghosts)@ == old(ghosts)@.map_values(|g: GhostAgent| frightened(g)),
        ghosts_wf(final(ghosts)@),
{
    let n = ghosts.len();
    let mut i: usize = 0;
    while i < n
        invariant
            n == ghosts@.len(),
            n == old(ghosts)@.len(),
            i <= n,
            ghosts_wf(old(ghosts)@),
            forall|k: int| 0 <= k < i ==> ghosts@[k] == frightened(#[trigger] old(ghosts)@[k]),
            forall|k: int| i <= k < n ==> ghosts@[k] == #[trigger] old(ghosts)@[k],
        decreases n - i,
    {
        if ghosts[i].release_state != ReleaseState::Respawning && ghosts[i].attack_state
            == AttackState::Attacking {
            let mut g = ghosts.remove(i);
            g.attack_state = AttackState::Scared;
            ghosts.insert(i, g);
        }
        i = i + 1;
    }
    assert(ghosts@ =~= old(ghosts)@.map_values(|g: GhostAgent| frightened(g)));
    assert forall|k: int| 0 <= k < n implies #[trigger] ghosts@[k].wf() by {
        assert(old(ghosts)@[k].wf());
    }
}

fn calm_all(ghosts: &mut Vec<GhostAgent>)
    requires
        ghosts_wf(old(ghosts)@),
    ensures
        final(ghosts)@ == old(ghosts)@.map_values(|g: GhostAgent| calmed(g)),
        ghosts_wf(final(ghosts)@),
{
    let n = ghosts.len();
    let mut i: usize = 0;
    while i < n
        invariant
            n == ghosts@.len(),
            n == old(ghosts)@.len(),
            i <= n,
            ghosts_wf(old(ghosts)@),
            forall|k: int| 0 <= k < i ==> ghosts@[k] == calmed(#[trigger] old(ghosts)@[k]),
            forall|k: int| i <= k < n ==> ghosts@[k] == #[trigger] old(ghosts)@[k],
        decreases n - i,
    {
        if ghosts[i].release_state != ReleaseState::Respawning && ghosts[i].attack_state
            == AttackState::Scared {
            let mut g = ghosts.remove(i);
            g.attack_state = AttackState::Attacking;
            ghosts.insert(i, g);
        }
        i = i + 1;
    }
    assert(ghosts@ =~= old(ghosts)@.map_values(|g: GhostAgent| calmed(g)));
    assert forall|k: int| 0 <= k < n implies #[trigger] ghosts@[k].wf() by {
        assert(old(ghosts)@[k].wf());
    }
}

fn any_scared_exec(ghosts: &Vec<GhostAgent>) -> (r: bool)
    ensures
        r == any_scared(ghosts@),
{
    let n = ghosts.len();
    let mut i: usize = 0;
    while i < n
        invariant
            n == ghosts@.len(),
            i <= n,
            forall|k: int|
                0 <= k < i ==> !(threat_affected(ghosts@[k]) && #[trigger] ghosts@[k].attack_state
                    == AttackState::Scared),
        decreases n - i,
    {
        if ghosts[i].release_state != ReleaseState::Respawning && ghosts[i].attack_state
            == AttackState::Scared {
            return true;
        }
        i = i + 1;
    }
    false
}

/// Applies one tick of the threat state (see `scare_update`).
pub fn scare_ghosts(
    ghosts: &mut Vec<GhostAgent>,
    timer: &mut GhostScareTimer,
    power_up_consumed: bool,
    delta_ms: u64,
)
    requires
        ghosts_wf(old(ghosts)@),
    ensures
        (final(ghosts)@, final(timer).0) == scare_update(
            old(ghosts)@,
            old(timer).0,
            power_up_consumed,
            delta_ms as int,
        ),
        ghosts_wf(final(ghosts)@),
{
    if power_up_consumed {
        timer.0.reset();
        frighten_all(ghosts);
    }
    if any_scared_exec(ghosts) {
        timer.0.tick(delta_ms);
        if timer.0.finished() {
            calm_all(ghosts);
            timer.0.reset();
        }
    }
}

// ---------------------------------------------------------------------------
// Ben against the ghosts

/// A scared ghost that touches Ben and is not already on its way back is caught.
pub open spec fn catchable(ben: Position, g: GhostAgent, cell_size: int) -> bool {
    &&& collided(g.position, ben, cell_size, CollisionType::Approximate)
    &&& g.attack_state == AttackState::Scared
    &&& g.release_state != ReleaseState::Respawning
}

/// An attacking ghost that touches Ben ends the round.
pub open spec fn deadly(ben: Position, g: GhostAgent, cell_size: int) -> bool {
    collided(g.position, ben, cell_size, CollisionType::Approximate) && g.attack_state
        == AttackState::Attacking
}

/// How many of `gs` are caught.
pub open spec fn catch_count(ben: Position, gs: Seq<GhostAgent>, cell_size: int) -> nat
    decreases gs.len(),
{
    if gs.len() == 0 {
        0
    } else {
        catch_count(ben, gs.drop_last(), cell_size) + if catchable(ben, gs.last(), cell_size) {
            1nat
        } else {
            0nat
        }
    }
}

/// The points for the catches among `gs`, taken in order: the catch made
/// after `k` others is worth the tier of `chain + k`.
pub open spec fn catch_points(
    ben: Position,
    gs: Seq<GhostAgent>,
    cell_size: int,
    pv: PointValues,
    chain: int,
) -> int
    decreases gs.len(),
{
    if gs.len() == 0 {
        0
    } else {
        catch_points(ben, gs.drop_last(), cell_size, pv, chain) + if catchable(
            ben,
            gs.last(),
            cell_size,
        ) {
            ghost_tier(pv, chain + catch_count(ben, gs.drop_last(), cell_size)) as int
        } else {
            0
        }
    }
}

/// `b` is `a` caught: on its way back with no path, otherwise unchanged.
pub open spec fn is_caught(a: GhostAgent, b: GhostAgent) -> bool {
    &&& b.release_state == ReleaseState::Respawning
    &&& b.path@ == Seq::<Position>::empty()
    &&& b.kind == a.kind
    &&& b.position == a.position
    &&& b.attack_state == a.attack_state
    &&& b.speed == a.speed
}

/// `gs2` is `gs` after the catches: each caught ghost is sent back, the rest are unchanged.
pub open spec fn catch_result(
    ben: Position,
    gs: Seq<GhostAgent>,
    gs2: Seq<GhostAgent>,
    cell_size: int,
) -> bool {
    &&& gs2.len() == gs.len()
    &&& forall|i: int|
        0 <= i < gs.len() ==> if catchable(ben, #[trigger] gs[i], cell_size) {
            is_caught(gs[i], gs2[i])
        } else {
            gs2[i] == gs[i]
        }
}

pub open spec fn saturating(v: int) -> u64 {
    if v > u64::MAX {
        u64::MAX
    } else {
        v as u64
    }
}

proof fn lemma_saturating(v: int)
    requires
        0 <= v,
    ensures
        v <= u64::MAX ==> saturating(v) as int == v,
        v > u64::MAX ==> saturating(v) == u64::MAX,
        saturating(v) < u64::MAX ==> saturating(v + 1) as int == saturating(v) + 1,
        saturating(v) == u64::MAX ==> saturating(v + 1) == u64::MAX,
{
}

/// The chain after one tick's contact resolution: zero if a power-up was
/// just consumed, otherwise as it was, plus one for each ghost caught.
pub open spec fn chain_after(
    power_up_consumed: bool,
    chain: int,
    ben: Position,
    gs: Seq<GhostAgent>,
    cell_size: int,
) -> u64 {
    saturating(
        (if power_up_consumed {
            0
        } else {
            chain
        }) + catch_count(ben, gs, cell_size),
    )
}

pub proof fn lemma_catch_count_bound(ben: Position, gs: Seq<GhostAgent>, cell_size: int)
    ensures
        catch_count(ben, gs, cell_size) <= gs.len(),
    decreases gs.len(),
{
    if gs.len() > 0 {
        lemma_catch_count_bound(ben, gs.drop_last(), cell_size);
    }
}

/// The chain is exactly zero right after a power-up is consumed, and each
/// catch after that raises it by exactly one: catches counted ghost by ghost
/// in the order of resolution.
pub proof fn lemma_chain_counts_catches(
    power_up_consumed: bool,
    chain: int,
    ben: Position,
    gs: Seq<GhostAgent>,
    cell_size: int,
)
    requires
        0 <= chain,
        chain + gs.len() <= u64::MAX,
    ensures
        power_up_consumed ==> chain_after(power_up_consumed, chain, ben, gs, cell_size)
            == catch_count(ben, gs, cell_size),
        !power_up_consumed ==> chain_after(power_up_consumed, chain, ben, gs, cell_size) == chain
            + catch_count(ben, gs, cell_size),
        forall|k: int|
            0 <= k < gs.len() ==> #[trigger] catch_count(ben, gs.take(k + 1), cell_size)
                == catch_count(ben, gs.take(k), cell_size) + if catchable(ben, gs[k], cell_size) {
                1int
            } else {
                0int
            },
{
    lemma_catch_count_bound(ben, gs, cell_size);
    assert forall|k: int| 0 <= k < gs.len() implies #[trigger] catch_count(
        ben,
        gs.take(k + 1),
        cell_size,
    ) == catch_count(ben, gs.take(k), cell_size) + if catchable(ben, gs[k], cell_size) {
        1int
    } else {
        0int
    } by {
        assert(gs.take(k + 1).drop_last() =~= gs.take(k));
        assert(gs.take(k + 1).last() == gs[k]);
    }
}

/// The standard award of the `n`-th catch after a power-up (from zero).
pub open spec fn standard_award(n: int) -> int {
    if n == 0 {
        200
    } else if n == 1 {
        400
    } else if n == 2 {
        800
    } else {
        1600
    }
}

/// The total of the first `n` standard awards.
pub open spec fn standard_awards_total(n: nat) -> int
    decreases n,
{
    if n == 0 {
        0
    } else {
        standard_awards_total((n - 1) as nat) + standard_award(n - 1)
    }
}

/// With the standard values, catching scared ghosts one after another from a
/// fresh chain (as right after a power-up) yields 200, 400, 800, 1600, and
/// 1600 for every later catch: the points for a run of catches are the sum of
/// that sequence.
pub proof fn lemma_consecutive_catch_awards(
    ben: Position,
    gs: Seq<GhostAgent>,
    cell_size: int,
    pv: PointValues,
)
    requires
        pv.is_standard(),
        forall|i: int| 0 <= i < gs.len() ==> catchable(ben, #[trigger] gs[i], cell_size),
    ensures
        catch_count(ben, gs, cell_size) == gs.len(),
        catch_points(ben, gs, cell_size, pv, 0) == standard_awards_total(gs.len()),
    decreases gs.len(),
{
    if gs.len() > 0 {
        let front = gs.drop_last();
        assert forall|i: int| 0 <= i < front.len() implies catchable(ben, #[trigger] front[i], cell_size) by {
            assert(front[i] == gs[i]);
        }
        lemma_consecutive_catch_awards(ben, front, cell_size, pv);
        assert(catchable(ben, gs[gs.len() - 1], cell_size));
    }
}

/// What Ben's contact with the ghosts brought this tick.
#[derive(Clone, Copy, Debug, PartialEq, Eq, Structural)]
pub struct GhostCollision {
    /// Points for the ghosts caught.
    pub points: u64,
    /// How many ghosts were caught.
    pub caught: u64,
    /// An attacking ghost touched Ben.
    pub ben_caught: bool,
}

/// Resolves Ben's contact with every ghost, in order: an attacking ghost ends
/// the round; a scared one not already returning is caught, sent back with no
/// path, and scores the tier of the chain, which then grows by one.
pub fn ben_ghost_collision(
    ben: &Position,
    ghosts: &mut Vec<GhostAgent>,
    board: &Board,
    chain: &mut GhostChain,
    point_values: &PointValues,
) -> (r: GhostCollision)
    requires
        ben.in_world(),
        ghosts_wf(old(ghosts)@),
        point_values.wf(),
    ensures
        ghosts_wf(final(ghosts)@),
        catch_result(*ben, old(ghosts)@, final(ghosts)@, board.spec_cell_size()),
        final(chain).0 == saturating(
            old(chain).0 + catch_count(*ben, old(ghosts)@, board.spec_cell_size()),
        ),
        old(chain).0 + old(ghosts)@.len() <= u64::MAX ==> final(chain).0 == old(chain).0
            + catch_count(*ben, old(ghosts)@, board.spec_cell_size()),
        r.points == catch_points(
            *ben,
            old(ghosts)@,
            board.spec_cell_size(),
            *point_values,
            old(chain).0 as int,
        ),
        r.caught == catch_count(*ben, old(ghosts)@, board.spec_cell_size()),
        r.ben_caught == exists|i: int|
            0 <= i < old(ghosts)@.len() && deadly(
                *ben,
                #[trigger] old(ghosts)@[i],
                board.spec_cell_size(),
            ),
{
    let ghost gs = old(ghosts)@;
    let ghost cell = board.spec_cell_size();
    let ghost chain0 = chain.0 as int;
    let n = ghosts.len();
    let mut points: u64 = 0;
    let mut caught: u64 = 0;
    let mut ben_caught = false;
    let mut i: usize = 0;
    while i < n
        invariant
            n == ghosts@.len(),
            n == gs.len(),
            gs == old(ghosts)@,
            cell == board.spec_cell_size(),
            chain0 == old(chain).0,
            ghosts_wf(gs),
            ben.in_world(),
            point_values.wf(),
            i <= n,
            forall|k: int|
                0 <= k < i ==> if catchable(*ben, #[trigger] gs[k], cell) {
                    is_caught(gs[k], ghosts@[k])
                } else {
                    ghosts@[k] == gs[k]
                },
            forall|k: int| i <= k < n ==> ghosts@[k] == #[trigger] gs[k],
            forall|k: int| 0 <= k < i ==> #[trigger] ghosts@[k].wf(),
            chain.0 == saturating(chain0 + catch_count(*ben, gs.take(i as int), cell)),
            catch_count(*ben, gs.take(i as int), cell) <= i,
            caught == catch_count(*ben, gs.take(i as int), cell),
            points == catch_points(*ben, gs.take(i as int), cell, *point_values, chain0),
            points <= i * MAX_AWARD,
            ben_caught == exists|k: int| 0 <= k < i && deadly(*ben, #[trigger] gs[k], cell),
        decreases n - i,
    {
        let ghost before = gs.take(i as int);
        let ghost count = catch_count(*ben, before, cell);
        proof {
            assert(gs.take(i + 1).drop_last() =~= before);
            assert(gs.take(i + 1).last() == gs[i as int]);
            assert(catch_count(*ben, gs.take(i + 1), cell) == count + if catchable(
                *ben,
                gs[i as int],
                cell,
            ) {
                1nat
            } else {
                0nat
            });
            assert(catch_points(*ben, gs.take(i + 1), cell, *point_values, chain0) == catch_points(
                *ben,
                before,
                cell,
                *point_values,
                chain0,
            ) + if catchable(*ben, gs[i as int], cell) {
                ghost_tier(*point_values, chain0 + count) as int
            } else {
                0
            });
        }
        let pos = ghosts[i].position;
        assert(pos.in_world()) by {
            assert(gs[i as int].wf());
        }
        if did_collide(&pos, ben, board, CollisionType::Approximate) {
            if ghosts[i].attack_state == AttackState::Attacking {
                ben_caught = true;
            } else if ghosts[i].release_state != ReleaseState::Respawning {
                let mut g = ghosts.remove(i);
                g.release_state = ReleaseState::Respawning;
                g.path.clear();
                ghosts.insert(i, g);
                let award = point_values.ghost_points(chain.0);
                proof {
                    lemma_saturating(chain0 + count);
                }
                assert(award == ghost_tier(*point_values, chain0 + count));
                points = points + award;
                caught = caught + 1;
                chain.0 = chain.0.saturating_add(1);
            }
        }
        assert(ghosts@[i as int].wf()) by {
            assert(gs[i as int].wf());
        }
        i = i + 1;
    }
    assert(gs.take(n as int) =~= gs);
    proof {
        lemma_catch_count_bound(*ben, gs, cell);
    }
    GhostCollision { points, caught, ben_caught }
}

// ---------------------------------------------------------------------------
// Pursuit

/// `a` and `b` are the same ghost in the same states, whatever its place and path.
pub open spec fn same_ghost_and_state(a: GhostAgent, b: GhostAgent) -> bool {
    &&& b.kind == a.kind
    &&& b.speed == a.speed
    &&& b.attack_state == a.attack_state
    &&& b.release_state == a.release_state
}

/// One tick of pursuit for ghost `a`, giving `b`: a released ghost takes the
/// next waypoint of its path, or, when the path is used up, stays put and
/// computes a new approximate-arrival path toward Ben; others are unchanged.
pub open spec fn pursuit_step(a: GhostAgent, b: GhostAgent, ben: Position, board: &Board) -> bool {
    if a.release_state != ReleaseState::Released {
        b == a
    } else if a.path@.len() > 0 {
        &&& same_ghost_and_state(a, b)
        &&& b.position == a.path@[0]
        &&& b.path@ == a.path@.drop_first()
    } else {
        &&& same_ghost_and_state(a, b)
        &&& b.position == a.position
        &&& b.path@ == pursuit_route(
            board,
            a.position,
            ben,
            a.speed as int,
            CollisionType::Approximate,
        )
    }
}

/// A released ghost whose path is a route of legal moves from where it stands
/// keeps such a path after a pursuit tick, and any move it makes is a legal
/// move; so it changes direction only where it is centred on the axis that its
/// new direction needs.
pub proof fn lemma_pursuit_moves_are_legal(
    a: GhostAgent,
    b: GhostAgent,
    ben: Position,
    board: &Board,
)
    requires
        board.wf(),
        a.wf(),
        a.release_state == ReleaseState::Released,
        legal_steps(board, a.position, a.path@, a.speed as int),
        pursuit_step(a, b, ben, board),
    ensures
        legal_steps(board, b.position, b.path@, b.speed as int),
        b.position != a.position ==> legal_step(board, a.position, b.position, a.speed as int),
{
    if a.path@.len() > 0 {
        let s = a.path@;
        assert(legal_step(board, prev_of(a.position, s, 0), s[0], a.speed as int));
        assert forall|k: int| 0 <= k < b.path@.len() implies legal_step(
            board,
            prev_of(b.position, b.path@, k),
            #[trigger] b.path@[k],
            b.speed as int,
        ) by {
            assert(b.path@[k] == s[k + 1]);
            assert(prev_of(b.position, b.path@, k) == prev_of(a.position, s, k + 1));
            assert(legal_step(board, prev_of(a.position, s, k + 1), s[k + 1], a.speed as int));
        }
    } else {
        lemma_pursuit_route_steps(
            board,
            a.position,
            ben,
            a.speed as int,
            CollisionType::Approximate,
        );
    }
}

/// Advances every released ghost along its pursuit path (see `pursuit_step`).
pub fn ghost_movement(ghosts: &mut Vec<GhostAgent>, ben: &Position, board: &Board)
    requires
        board.wf(),
        ben.in_world(),
        ghosts_wf(old(ghosts)@),
    ensures
        ghosts_wf(final(ghosts)@),
        final(ghosts)@.len() == old(ghosts)@.len(),
        forall|i: int|
            0 <= i < old(ghosts)@.len() ==> pursuit_step(
                #[trigger] old(ghosts)@[i],
                final(ghosts)@[i],
                *ben,
                board,
            ),
{
    let ghost gs = old(ghosts)@;
    let n = ghosts.len();
    let mut i: usize = 0;
    while i < n
        invariant
            n == ghosts@.len(),
            n == gs.len(),
            gs == old(ghosts)@,
            board.wf(),
            ben.in_world(),
            ghosts_wf(gs),
            i <= n,
            forall|k: int| 0 <= k < i ==> pursuit_step(#[trigger] gs[k], ghosts@[k], *ben, board),
            forall|k: int| i <= k < n ==> ghosts@[k] == #[trigger] gs[k],
            forall|k: int| 0 <= k < i ==> #[trigger] ghosts@[k].wf(),
        decreases n - i,
    {
        assert(gs[i as int].wf());
        if ghosts[i].release_state == ReleaseState::Released {
            let mut g = ghosts.remove(i);
            match g.path.pop_front() {
                Some(p) => {
                    g.position = p;
                    assert(all_in_world(g.path@)) by {
                        assert forall|k: int| 0 <= k < g.path@.len() implies #[trigger] g.path@[k].in_world() by {
                            assert(g.path@[k] == gs[i as int].path@[k + 1]);
                        }
                    }
                },
                None => {
                    g.path = Path::shortest_to_transform(
                        &g.position,
                        ben,
                        board,
                        g.speed,
                        CollisionType::Approximate,
                    );
                },
            }
            ghosts.insert(i, g);
        }
        i = i + 1;
    }
}

// ---------------------------------------------------------------------------
// Release from the den

pub open spec fn any_in_state(gs: Seq<GhostAgent>, state: ReleaseState) -> bool {
    exists|i: int| 0 <= i < gs.len() && #[trigger] gs[i].release_state == state
}

/// While a ghost is releasing only it is handled; otherwise the caged ones are.
pub open spec fn release_candidate(g: GhostAgent, releasing: bool) -> bool {
    (g.release_state == ReleaseState::Caged && !releasing) || g.release_state
        == ReleaseState::Releasing
}

/// Index of the first release candidate at or after `from`, or the length.
pub open spec fn first_candidate(gs: Seq<GhostAgent>, releasing: bool, from: int) -> int
    decreases gs.len() - from,
{
    if from < 0 || from >= gs.len() {
        gs.len() as int
    } else if release_candidate(gs[from], releasing) {
        from
    } else {
        first_candidate(gs, releasing, from + 1)
    }
}

proof fn lemma_first_candidate_lower(gs: Seq<GhostAgent>, releasing: bool, from: int)
    requires
        0 <= from <= gs.len(),
    ensures
        from <= first_candidate(gs, releasing, from) <= gs.len(),
    decreases gs.len() - from,
{
    if from < gs.len() && !release_candidate(gs[from], releasing) {
        lemma_first_candidate_lower(gs, releasing, from + 1);
    }
}

proof fn lemma_first_candidate(gs: Seq<GhostAgent>, releasing: bool, from: int, j: int)
    requires
        0 <= from <= j < gs.len(),
        release_candidate(gs[j], releasing),
    ensures
        from <= first_candidate(gs, releasing, from) <= j,
        release_candidate(gs[first_candidate(gs, releasing, from)], releasing),
    decreases j - from,
{
    if !release_candidate(gs[from], releasing) {
        lemma_first_candidate(gs, releasing, from + 1, j);
    }
}

/// One step of leaving the den: first to the den's horizontal centre, then up
/// to the row above the ghost gate, then released.
pub open spec fn release_move(g: GhostAgent, board: &Board) -> GhostAgent {
    let xt = den_x(board);
    let yt = board.y_of(GHOST_EXIT_ROW as int);
    if g.position.x < xt {
        GhostAgent { position: Position { x: (g.position.x + g.speed) as i64, y: g.position.y }, ..g }
    } else if g.position.x > xt {
        GhostAgent { position: Position { x: (g.position.x - g.speed) as i64, y: g.position.y }, ..g }
    } else if g.position.y < yt {
        GhostAgent { position: Position { x: g.position.x, y: (g.position.y + g.speed) as i64 }, ..g }
    } else {
        GhostAgent { release_state: ReleaseState::Released, ..g }
    }
}

/// `gs2` and `t2` are `gs` and `t` after one tick of the release protocol (see `ghost_release`).
pub open spec fn release_result(
    gs: Seq<GhostAgent>,
    t: Timer,
    gs2: Seq<GhostAgent>,
    t2: Timer,
    board: &Board,
    delta: int,
) -> bool {
    let releasing = any_in_state(gs, ReleaseState::Releasing);
    let caged = any_in_state(gs, ReleaseState::Caged);
    &&& gs2.len() == gs.len()
    &&& if !releasing && !caged {
        gs2 == gs && t2 == t
    } else {
        let idx = first_candidate(gs, releasing, 0);
        &&& 0 <= idx < gs.len()
        &&& forall|k: int| 0 <= k < gs.len() && k != idx ==> #[trigger] gs2[k] == gs[k]
        &&& if gs[idx].release_state == ReleaseState::Caged {
            let ticked = t.spec_ticked(delta);
            if ticked.spec_finished() {
                &&& gs2[idx] == GhostAgent { release_state: ReleaseState::Releasing, ..gs[idx] }
                &&& t2 == ticked.spec_reset()
            } else {
                gs2[idx] == gs[idx] && t2 == ticked
            }
        } else {
            gs2[idx] == release_move(gs[idx], board) && t2 == t
        }
    }
}

/// Moves the release protocol one tick. Nothing happens unless some ghost is
/// caged or releasing. Otherwise only the first candidate acts: while a ghost is
/// releasing that is the first releasing ghost, which takes one `release_move`;
/// else it is the first caged ghost, which ticks the release countdown and, when
/// the countdown completes, starts releasing and restarts it. Returns the index
/// of the ghost that acted.
pub fn ghost_release(
    ghosts: &mut Vec<GhostAgent>,
    timer: &mut GhostReleaseTimer,
    board: &Board,
    delta_ms: u64,
) -> (r: Option<usize>)
    requires
        board.wf(),
        board.spec_height() > GHOST_DEN_ROW,
        ghosts_wf(old(ghosts)@),
    ensures
        ghosts_wf(final(ghosts)@),
        final(ghosts)@.len() == old(ghosts)@.len(),
        release_result(
            old(ghosts)@,
            old(timer).0,
            final(ghosts)@,
            final(timer).0,
            board,
            delta_ms as int,
        ),
        r is None <==> !any_in_state(old(ghosts)@, ReleaseState::Releasing) && !any_in_state(
            old(ghosts)@,
            ReleaseState::Caged,
        ),
        r matches Some(k) ==> k == first_candidate(
            old(ghosts)@,
            any_in_state(old(ghosts)@, ReleaseState::Releasing),
            0,
        ),
{
    let ghost gs = old(ghosts)@;
    let releasing = state_present(ghosts, ReleaseState::Releasing);
    let caged = state_present(ghosts, ReleaseState::Caged);
    if !releasing && !caged {
        return None;
    }
    proof {
        if releasing {
            let j = choose|j: int| 0 <= j < gs.len() && #[trigger] gs[j].release_state == ReleaseState::Releasing;
            lemma_first_candidate(gs, releasing, 0, j);
        } else {
            let j = choose|j: int| 0 <= j < gs.len() && #[trigger] gs[j].release_state == ReleaseState::Caged;
            lemma_first_candidate(gs, releasing, 0, j);
        }
    }
    let n = ghosts.len();
    let mut i: usize = 0;
    while i < n
        invariant
            n == ghosts@.len(),
            ghosts@ == gs,
            i <= first_candidate(gs, releasing, 0) < n,
            first_candidate(gs, releasing, 0) == first_candidate(gs, releasing, i as int),
        ensures
            i == first_candidate(gs, releasing, 0),
        decreases n - i,
    {
        let st = ghosts[i].release_state;
        if st == ReleaseState::Releasing || (st == ReleaseState::Caged && !releasing) {
            break;
        }
        proof {
            lemma_first_candidate_lower(gs, releasing, i + 1);
        }
        i = i + 1;
    }
    assert(gs[i as int].wf());
    let mut g = ghosts.remove(i);
    if g.release_state == ReleaseState::Caged {
        timer.0.tick(delta_ms);
        if timer.0.finished() {
            g.release_state = ReleaseState::Releasing;
            timer.0.reset();
        }
    } else {
        proof {
            board.lemma_extent();
            let h = board.spec_height();
            let c = board.spec_cell_size();
            assert(0 <= (h - GHOST_EXIT_ROW - 1) * c <= (h - 1) * c) by (nonlinear_arith)
                requires
                    h > GHOST_DEN_ROW,
                    c > 0,
            ;
        }
        let exit = get_den_exit_coordinates(board);
        if g.position.x < exit.x {
            g.position.x = g.position.x + g.speed;
        } else if g.position.x > exit.x {
            g.position.x = g.position.x - g.speed;
        } else if g.position.y < exit.y {
            g.position.y = g.position.y + g.speed;
        } else {
            g.release_state = ReleaseState::Released;
        }
    }
    ghosts.insert(i, g);
    assert forall|k: int| 0 <= k < n implies #[trigger] ghosts@[k].wf() by {
        if k != i {
            assert(gs[k].wf());
        }
    }
    Some(i)
}

fn state_present(ghosts: &Vec<GhostAgent>, state: ReleaseState) -> (r: bool)
    ensures
        r == any_in_state(ghosts@, state),
{
    let n = ghosts.len();
    let mut i: usize = 0;
    while i < n
        invariant
            n == ghosts@.len(),
            i <= n,
            forall|k: int| 0 <= k < i ==> #[trigger] ghosts@[k].release_state != state,
        decreases n - i,
    {
        if ghosts[i].release_state == state {
            return true;
        }
        i = i + 1;
    }
    false
}

// ---------------------------------------------------------------------------
// Return to the den

/// A coordinate moved to the nearest cell centre line toward the grid origin.
pub open spec fn snapped(board: &Board, v: int) -> int {
    let d = v - board.spec_offset();
    let c = board.spec_cell_size();
    if d >= 0 {
        v - d % c
    } else {
        v + (-d) % c
    }
}

pub open spec fn snapped_position(board: &Board, p: Position) -> Position {
    Position { x: snapped(board, p.x as int) as i64, y: snapped(board, p.y as int) as i64 }
}

fn snap(board: &Board, v: i64) -> (r: i64)
    requires
        board.wf(),
        -WORLD_LIMIT <= v <= WORLD_LIMIT,
    ensures
        r == snapped(board, v as int),
        -WORLD_LIMIT <= r <= WORLD_LIMIT,
{
    let d = v - board.offset();
    let c = board.cell_size();
    if d >= 0 {
        v - d % c
    } else {
        v + (-d) % c
    }
}

/// One tick of the return to the den for ghost `a`, giving `b`: a returning
/// ghost takes the next waypoint and, on reaching the den's inside point, is
/// caged and attacks again; with its path used up it is moved onto the grid
/// lines and gets a new den route at the return speed. Others are unchanged.
pub open spec fn respawn_step(a: GhostAgent, b: GhostAgent, board: &Board) -> bool {
    if a.release_state != ReleaseState::Respawning {
        b == a
    } else if a.path@.len() > 0 {
        &&& b.kind == a.kind
        &&& b.speed == a.speed
        &&& b.position == a.path@[0]
        &&& b.path@ == a.path@.drop_first()
        &&& if a.path@[0] == ghost_spawn(board) {
            b.release_state == ReleaseState::Caged && b.attack_state == AttackState::Attacking
        } else {
            b.release_state == a.release_state && b.attack_state == a.attack_state
        }
    } else {
        &&& same_ghost_and_state(a, b)
        &&& b.position == snapped_position(board, a.position)
        &&& b.path@ == den_route(board, b.position, GHOST_SPEED_RESPAWNING as int)
    }
}

/// Moves every returning ghost one tick (see `respawn_step`).
pub fn ghost_respawn(ghosts: &mut Vec<GhostAgent>, board: &Board)
    requires
        board.wf(),
        board.spec_height() > GHOST_DEN_ROW,
        ghosts_wf(old(ghosts)@),
    ensures
        ghosts_wf(final(ghosts)@),
        final(ghosts)@.len() == old(ghosts)@.len(),
        forall|i: int|
            0 <= i < old(ghosts)@.len() ==> respawn_step(
                #[trigger] old(ghosts)@[i],
                final(ghosts)@[i],
                board,
            ),
{
    let ghost gs = old(ghosts)@;
    let spawn = get_ghost_spawn_coordinates(board);
    let n = ghosts.len();
    let mut i: usize = 0;
    while i < n
        invariant
            n == ghosts@.len(),
            n == gs.len(),
            gs == old(ghosts)@,
            board.wf(),
            board.spec_height() > GHOST_DEN_ROW,
            spawn == ghost_spawn(board),
            ghosts_wf(gs),
            i <= n,
            forall|k: int| 0 <= k < i ==> respawn_step(#[trigger] gs[k], ghosts@[k], board),
            forall|k: int| i <= k < n ==> ghosts@[k] == #[trigger] gs[k],
            forall|k: int| 0 <= k < i ==> #[trigger] ghosts@[k].wf(),
        decreases n - i,
    {
        assert(gs[i as int].wf());
        if ghosts[i].release_state == ReleaseState::Respawning {
            let mut g = ghosts.remove(i);
            match g.path.pop_front() {
                Some(p) => {
                    g.position = p;
                    if p == spawn {
                        g.release_state = ReleaseState::Caged;
                        g.attack_state = AttackState::Attacking;
                    }
                    assert(all_in_world(g.path@)) by {
                        assert forall|k: int| 0 <= k < g.path@.len() implies #[trigger] g.path@[k].in_world() by {
                            assert(g.path@[k] == gs[i as int].path@[k + 1]);
                        }
                    }
                },
                None => {
                    g.position = Position { x: snap(board, g.position.x), y: snap(board, g.position.y) };
                    g.path = Path::shortest_to_ghost_spawn(&g.position, board, GHOST_SPEED_RESPAWNING);
                },
            }
            ghosts.insert(i, g);
        }
        i = i + 1;
    }
}

} // verus!
