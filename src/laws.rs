use vstd::prelude::*;
use crate::elements::{BackgroundElementType, ForegroundElement, ForegroundElementType};
use crate::level::{
    split_lines, level_width, level_height, level_foreground, level_player, lemma_level_player,
    lemma_level_foreground, lemma_split_lines_nonempty,
};
use crate::universe::{
    UniverseView, in_bounds, tile, first_at, step, valid, won, initial, level_fits,
    goals_among, lemma_step_valid, lemma_initial_valid, lemma_first_at, lemma_width_fits,
};

verus! {

/// The state after a sequence of moves, played from the start of a level text.
pub open spec fn play(b: Seq<u8>, moves: Seq<(int, int)>) -> UniverseView
    decreases moves.len(),
{
    if moves.len() == 0 {
        initial(b)
    } else {
        let prev = play(b, moves.drop_last());
        step(prev, moves.last().0, moves.last().1)
    }
}

/// The state after the same move is tried `n` times.
pub open spec fn repeat(v: UniverseView, dx: int, dy: int, n: nat) -> UniverseView
    decreases n,
{
    if n == 0 {
        v
    } else {
        step(repeat(v, dx, dy, (n - 1) as nat), dx, dy)
    }
}

/// How many of the first `n` entities are of kind `k`.
pub open spec fn count_kind(fg: Seq<ForegroundElement>, k: ForegroundElementType, n: int) -> int
    decreases n,
{
    if n <= 0 {
        0
    } else {
        count_kind(fg, k, n - 1) + if fg[n - 1].element_type == k { 1int } else { 0int }
    }
}

/// The number of crates among the entities.
pub open spec fn crate_count(fg: Seq<ForegroundElement>) -> int {
    count_kind(fg, ForegroundElementType::Crate, fg.len() as int)
}

/// The number of players among the entities.
pub open spec fn player_count(fg: Seq<ForegroundElement>) -> int {
    count_kind(fg, ForegroundElementType::Player, fg.len() as int)
}

/// Moving the player toward a wall changes nothing.
pub proof fn lemma_wall_is_no_op(v: UniverseView, dx: int, dy: int)
    requires
        v.player_id < v.foreground.len(),
        in_bounds(v, v.foreground[v.player_id as int].x + dx, v.foreground[v.player_id as int].y + dy),
        tile(v, v.foreground[v.player_id as int].x + dx, v.foreground[v.player_id as int].y + dy)
            == BackgroundElementType::Wall,
    ensures
        step(v, dx, dy) == v,
{
}

/// A push that succeeds moves the crate one cell on and the player into its
/// place, and the counter loses one if the crate left a goal and gains one if
/// it reached a goal.
pub proof fn lemma_push(v: UniverseView, dx: int, dy: int)
    requires
        valid(v),
        v.player_id < v.foreground.len(),
        ({
            let p = v.foreground[v.player_id as int];
            let (tx, ty) = (p.x + dx, p.y + dy);
            let (ux, uy) = (tx + dx, ty + dy);
            &&& in_bounds(v, tx, ty)
            &&& tile(v, tx, ty) != BackgroundElementType::Wall
            &&& first_at(v.foreground, tx, ty, 0) < v.foreground.len()
            &&& in_bounds(v, ux, uy)
            &&& tile(v, ux, uy) != BackgroundElementType::Wall
            &&& first_at(v.foreground, ux, uy, 0) == v.foreground.len()
        }),
    ensures
        ({
            let p = v.foreground[v.player_id as int];
            let (tx, ty) = (p.x + dx, p.y + dy);
            let (ux, uy) = (tx + dx, ty + dy);
            let c = first_at(v.foreground, tx, ty, 0);
            let s = step(v, dx, dy);
            &&& c != v.player_id
            &&& s.foreground.len() == v.foreground.len()
            &&& s.foreground[c].x == ux && s.foreground[c].y == uy
            &&& s.foreground[v.player_id as int].x == tx && s.foreground[v.player_id as int].y == ty
            &&& s.crates_ok == v.crates_ok
                - (if tile(v, tx, ty) == BackgroundElementType::Goal { 1int } else { 0int })
                + (if tile(v, ux, uy) == BackgroundElementType::Goal { 1int } else { 0int })
        }),
{
    let p = v.foreground[v.player_id as int];
    lemma_first_at(v.foreground, p.x + dx, p.y + dy, 0);
    lemma_first_at(v.foreground, p.x + 2 * dx, p.y + 2 * dy, 0);
    lemma_width_fits(v);
}

/// The counter never exceeds the number of entities other than the player.
proof fn lemma_goals_among_bound(v: UniverseView, n: int)
    requires
        0 <= n,
    ensures
        0 <= goals_among(v, n) <= n - (if v.player_id < n { 1int } else { 0int }),
    decreases n,
{
    if n > 0 {
        lemma_goals_among_bound(v, n - 1);
    }
}

/// Pushing a crate off a goal onto a cell that is no goal takes one from the
/// counter, and the game is then not won.
pub proof fn lemma_push_off_goal(v: UniverseView, dx: int, dy: int)
    requires
        valid(v),
        v.player_id < v.foreground.len(),
        ({
            let p = v.foreground[v.player_id as int];
            let (tx, ty) = (p.x + dx, p.y + dy);
            let (ux, uy) = (tx + dx, ty + dy);
            &&& in_bounds(v, tx, ty)
            &&& tile(v, tx, ty) == BackgroundElementType::Goal
            &&& first_at(v.foreground, tx, ty, 0) < v.foreground.len()
            &&& in_bounds(v, ux, uy)
            &&& tile(v, ux, uy) == BackgroundElementType::Nothing
            &&& first_at(v.foreground, ux, uy, 0) == v.foreground.len()
        }),
    ensures
        step(v, dx, dy).crates_ok == v.crates_ok - 1,
        !won(step(v, dx, dy)),
{
    lemma_push(v, dx, dy);
    lemma_goals_among_bound(v, v.foreground.len() as int);
}

/// Pushing a crate into another crate changes nothing.
pub proof fn lemma_double_push_is_no_op(v: UniverseView, dx: int, dy: int)
    requires
        v.player_id < v.foreground.len(),
        ({
            let p = v.foreground[v.player_id as int];
            let (tx, ty) = (p.x + dx, p.y + dy);
            &&& first_at(v.foreground, tx, ty, 0) < v.foreground.len()
            &&& first_at(v.foreground, tx + dx, ty + dy, 0) < v.foreground.len()
        }),
    ensures
        step(v, dx, dy) == v,
{
}

/// A move that changes nothing changes nothing however often it is tried.
pub proof fn lemma_rejected_move_repeats(v: UniverseView, dx: int, dy: int, n: nat)
    requires
        step(v, dx, dy) == v,
    ensures
        repeat(v, dx, dy, n) == v,
    decreases n,
{
    if n > 0 {
        lemma_rejected_move_repeats(v, dx, dy, (n - 1) as nat);
    }
}

/// A move keeps the number of entities, their kinds and the player slot.
proof fn lemma_step_keeps_kinds(v: UniverseView, dx: int, dy: int)
    ensures
        step(v, dx, dy).foreground.len() == v.foreground.len(),
        step(v, dx, dy).player_id == v.player_id,
        forall|i: int| 0 <= i < v.foreground.len() ==>
            (#[trigger] step(v, dx, dy).foreground[i]).element_type == v.foreground[i].element_type,
{
    let fg = v.foreground;
    if v.player_id < fg.len() {
        let p = fg[v.player_id as int];
        lemma_first_at(fg, p.x + dx, p.y + dy, 0);
        lemma_first_at(fg, p.x + 2 * dx, p.y + 2 * dy, 0);
    }
}

/// Every state reached from a level keeps the invariant, the entities' kinds
/// and the player slot of the start.
proof fn lemma_play(b: Seq<u8>, moves: Seq<(int, int)>)
    requires
        level_fits(b),
    ensures
        valid(play(b, moves)),
        play(b, moves).foreground.len() == initial(b).foreground.len(),
        play(b, moves).player_id == initial(b).player_id,
        forall|i: int| 0 <= i < initial(b).foreground.len() ==>
            (#[trigger] play(b, moves).foreground[i]).element_type == initial(b).foreground[i].element_type,
    decreases moves.len(),
{
    if moves.len() == 0 {
        lemma_initial_valid(b);
    } else {
        let prev = play(b, moves.drop_last());
        lemma_play(b, moves.drop_last());
        lemma_step_valid(prev, moves.last().0, moves.last().1);
        lemma_step_keeps_kinds(prev, moves.last().0, moves.last().1);
    }
}

/// In every state reached from a level, every entity stands on the grid.
pub proof fn lemma_reachable_in_bounds(b: Seq<u8>, moves: Seq<(int, int)>)
    requires
        level_fits(b),
    ensures
        forall|i: int| 0 <= i < play(b, moves).foreground.len() ==>
            in_bounds(play(b, moves), #[trigger] play(b, moves).foreground[i].x as int, play(b, moves).foreground[i].y as int),
{
    lemma_play(b, moves);
}

/// The slot a level records holds a player; without one, every entity is a crate.
proof fn lemma_level_player_kind(lines: Seq<Seq<u8>>, w: int, n: int)
    ensures
        level_player(lines, w, n) matches Some(p) ==> p < level_foreground(lines, w, n).len()
            && level_foreground(lines, w, n)[p as int].element_type == ForegroundElementType::Player,
        level_player(lines, w, n) is None ==> forall|i: int| 0 <= i < level_foreground(lines, w, n).len()
            ==> (#[trigger] level_foreground(lines, w, n)[i]).element_type == ForegroundElementType::Crate,
    decreases n,
{
    lemma_level_player(lines, w, n);
    if n > 0 && w > 0 {
        lemma_level_player_kind(lines, w, n - 1);
        let prev = level_foreground(lines, w, n - 1);
        let cur = level_foreground(lines, w, n);
        assert forall|i: int| 0 <= i < prev.len() implies cur[i] == prev[i] by {}
    }
}

/// Two entities of kind `k` among the first `n` count twice.
proof fn lemma_count_kind_two(fg: Seq<ForegroundElement>, k: ForegroundElementType, n: int, i: int, j: int)
    requires
        0 <= i < n <= fg.len(),
        0 <= j < n,
        i != j,
        fg[i].element_type == k,
        fg[j].element_type == k,
    ensures
        count_kind(fg, k, n) >= 2,
    decreases n,
{
    lemma_count_kind_nonneg(fg, k, n - 1);
    if i < n - 1 && j < n - 1 {
        lemma_count_kind_two(fg, k, n - 1, i, j);
    } else if i < n - 1 {
        lemma_count_kind_one(fg, k, n - 1, i);
    } else {
        lemma_count_kind_one(fg, k, n - 1, j);
    }
}

proof fn lemma_count_kind_one(fg: Seq<ForegroundElement>, k: ForegroundElementType, n: int, i: int)
    requires
        0 <= i < n <= fg.len(),
        fg[i].element_type == k,
    ensures
        count_kind(fg, k, n) >= 1,
    decreases n,
{
    lemma_count_kind_nonneg(fg, k, n - 1);
    if i < n - 1 {
        lemma_count_kind_one(fg, k, n - 1, i);
    }
}

proof fn lemma_count_kind_nonneg(fg: Seq<ForegroundElement>, k: ForegroundElementType, n: int)
    ensures
        count_kind(fg, k, n) >= 0,
    decreases n,
{
    if n > 0 {
        lemma_count_kind_nonneg(fg, k, n - 1);
    }
}

/// The counter is at most the number of crates when every entity but the
/// player's is a crate.
proof fn lemma_goals_among_crates(v: UniverseView, n: int)
    requires
        0 <= n <= v.foreground.len(),
        forall|i: int| 0 <= i < v.foreground.len() && i != v.player_id
            ==> (#[trigger] v.foreground[i]).element_type == ForegroundElementType::Crate,
    ensures
        0 <= goals_among(v, n) <= count_kind(v.foreground, ForegroundElementType::Crate, n),
    decreases n,
{
    if n > 0 {
        lemma_goals_among_crates(v, n - 1);
    }
}

/// In every state reached from a level with at most one player marker, the
/// counter lies between zero and the number of crates.
pub proof fn lemma_reachable_counter(b: Seq<u8>, moves: Seq<(int, int)>)
    requires
        level_fits(b),
        player_count(initial(b).foreground) <= 1,
    ensures
        0 <= play(b, moves).crates_ok <= crate_count(play(b, moves).foreground),
{
    let v0 = initial(b);
    let v = play(b, moves);
    lemma_play(b, moves);
    let lines = split_lines(b);
    let w = level_width(lines);
    let h = level_height(lines);
    lemma_level_player_kind(lines, w, w * h);
    assert forall|i: int| 0 <= i < v.foreground.len() && i != v.player_id
        implies (#[trigger] v.foreground[i]).element_type == ForegroundElementType::Crate by {
        assert(v.foreground[i].element_type == v0.foreground[i].element_type);
        if v0.foreground[i].element_type == ForegroundElementType::Player {
            if let Some(p) = level_player(lines, w, w * h) {
                lemma_count_kind_two(v0.foreground, ForegroundElementType::Player, v0.foreground.len() as int, i, p as int);
            }
        }
    }
    lemma_goals_among_crates(v, v.foreground.len() as int);
}

/// No two entities stand on the same cell.
pub open spec fn no_stacking(fg: Seq<ForegroundElement>) -> bool {
    forall|i: int, j: int| 0 <= i < j < fg.len() ==>
        !((#[trigger] fg[i]).x == (#[trigger] fg[j]).x && fg[i].y == fg[j].y)
}

/// A level starts with at most one entity on each cell.
proof fn lemma_initial_no_stacking(b: Seq<u8>)
    requires
        level_fits(b),
    ensures
        no_stacking(initial(b).foreground),
{
    let lines = split_lines(b);
    lemma_split_lines_nonempty(b);
    let w = level_width(lines);
    let h = level_height(lines);
    let fg = initial(b).foreground;
    lemma_level_foreground(lines, w, h, w * h);
    assert forall|i: int, j: int| 0 <= i < j < fg.len() implies
        !((#[trigger] fg[i]).x == (#[trigger] fg[j]).x && fg[i].y == fg[j].y) by {
        assert(fg[i].y * w + fg[i].x < fg[j].y * w + fg[j].x);
    }
}

/// A move keeps at most one entity on each cell.
proof fn lemma_step_no_stacking(v: UniverseView, dx: int, dy: int)
    requires
        valid(v),
        no_stacking(v.foreground),
    ensures
        no_stacking(step(v, dx, dy).foreground),
{
    let fg = v.foreground;
    let pid = v.player_id as int;
    if pid >= fg.len() {
        return;
    }
    lemma_width_fits(v);
    let tx = fg[pid].x + dx;
    let ty = fg[pid].y + dy;
    if !in_bounds(v, tx, ty) || tile(v, tx, ty) == BackgroundElementType::Wall {
        return;
    }
    let c = first_at(fg, tx, ty, 0);
    lemma_first_at(fg, tx, ty, 0);
    let fg2 = step(v, dx, dy).foreground;
    if c >= fg.len() {
        assert forall|i: int, j: int| 0 <= i < j < fg2.len() implies
            !((#[trigger] fg2[i]).x == (#[trigger] fg2[j]).x && fg2[i].y == fg2[j].y) by {
            if i != pid {
                assert(fg2[i] == fg[i]);
            }
            if j != pid {
                assert(fg2[j] == fg[j]);
            }
        }
        return;
    }
    let ux = tx + dx;
    let uy = ty + dy;
    lemma_first_at(fg, ux, uy, 0);
    if !in_bounds(v, ux, uy) || tile(v, ux, uy) == BackgroundElementType::Wall || first_at(fg, ux, uy, 0) < fg.len() {
        return;
    }
    assert(c != pid);
    assert forall|i: int, j: int| 0 <= i < j < fg2.len() implies
        !((#[trigger] fg2[i]).x == (#[trigger] fg2[j]).x && fg2[i].y == fg2[j].y) by {
        if i != pid && i != c {
            assert(fg2[i] == fg[i]);
        }
        if j != pid && j != c {
            assert(fg2[j] == fg[j]);
        }
        if i == c || j == c {
            let o = if i == c { j } else { i };
            if o != pid {
                assert(!(fg[o].x == ux && fg[o].y == uy));
            }
        }
        if i == pid || j == pid {
            let o = if i == pid { j } else { i };
            if o != c {
                if o < c {
                    assert(!(fg[o].x == tx && fg[o].y == ty));
                } else {
                    assert(!(fg[c].x == fg[o].x && fg[c].y == fg[o].y));
                }
            }
        }
    }
}

/// In every state reached from a level, no two entities share a cell.
pub proof fn lemma_reachable_no_stacking(b: Seq<u8>, moves: Seq<(int, int)>)
    requires
        level_fits(b),
    ensures
        no_stacking(play(b, moves).foreground),
    decreases moves.len(),
{
    if moves.len() == 0 {
        lemma_initial_no_stacking(b);
    } else {
        let prev = play(b, moves.drop_last());
        lemma_reachable_no_stacking(b, moves.drop_last());
        lemma_play(b, moves.drop_last());
        lemma_step_no_stacking(prev, moves.last().0, moves.last().1);
    }
}

} // verus!
