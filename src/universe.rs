use vstd::prelude::*;
use vstd::string::StringSliceAdditionalSpecFns;
use vstd::arithmetic::div_mod::lemma_fundamental_div_mod_converse;
use crate::elements::{BackgroundElementType, ForegroundElement};
use crate::level::{
    Level, split_lines, level_width, level_height, level_background, level_foreground, level_player,
    cell, tile_of, lemma_split_lines_nonempty, lemma_split_lines_bounds, lemma_level_foreground,
    lemma_level_player,
};

verus! {

/// The state of a game, as mathematical values.
pub struct UniverseView {
    pub width: int,
    pub height: int,
    pub background: Seq<BackgroundElementType>,
    pub foreground: Seq<ForegroundElement>,
    pub player_id: nat,
    pub crates_ok: int,
}

/// Whether `(x, y)` is a cell of the grid.
pub open spec fn in_bounds(v: UniverseView, x: int, y: int) -> bool {
    0 <= x < v.width && 0 <= y < v.height
}

/// The background tile of cell `(x, y)`.
pub open spec fn tile(v: UniverseView, x: int, y: int) -> BackgroundElementType {
    v.background[y * v.width + x]
}

/// The first entity, from index `i` on, that stands at `(x, y)`; the number of
/// entities if none does.
pub open spec fn first_at(fg: Seq<ForegroundElement>, x: int, y: int, i: int) -> int
    decreases fg.len() - i,
{
    if i >= fg.len() {
        fg.len() as int
    } else if i >= 0 && fg[i].x == x && fg[i].y == y {
        i
    } else {
        first_at(fg, x, y, i + 1)
    }
}

/// `e` moved by `(dx, dy)`.
pub open spec fn shifted(e: ForegroundElement, dx: int, dy: int) -> ForegroundElement {
    ForegroundElement { x: (e.x + dx) as i32, y: (e.y + dy) as i32, element_type: e.element_type }
}

/// The state after the player tries to move by `(dx, dy)`.
pub open spec fn step(v: UniverseView, dx: int, dy: int) -> UniverseView {
    let fg = v.foreground;
    let pid = v.player_id as int;
    if pid >= fg.len() {
        v
    } else {
        let tx = fg[pid].x + dx;
        let ty = fg[pid].y + dy;
        if !in_bounds(v, tx, ty) || tile(v, tx, ty) == BackgroundElementType::Wall {
            v
        } else {
            let c = first_at(fg, tx, ty, 0);
            if c >= fg.len() {
                UniverseView { foreground: fg.update(pid, shifted(fg[pid], dx, dy)), ..v }
            } else {
                let ux = tx + dx;
                let uy = ty + dy;
                if !in_bounds(v, ux, uy) || tile(v, ux, uy) == BackgroundElementType::Wall
                    || first_at(fg, ux, uy, 0) < fg.len() {
                    v
                } else {
                    let left = if tile(v, tx, ty) == BackgroundElementType::Goal { 1int } else { 0int };
                    let entered = if tile(v, ux, uy) == BackgroundElementType::Goal { 1int } else { 0int };
                    let fg1 = fg.update(c, shifted(fg[c], dx, dy));
                    let fg2 = fg1.update(pid, shifted(fg1[pid], dx, dy));
                    UniverseView { foreground: fg2, crates_ok: v.crates_ok - left + entered, ..v }
                }
            }
        }
    }
}

/// Whether entity `e` rests on a goal cell.
pub open spec fn on_goal(v: UniverseView, e: ForegroundElement) -> bool {
    in_bounds(v, e.x as int, e.y as int) && tile(v, e.x as int, e.y as int) == BackgroundElementType::Goal
}

/// How many of the first `n` entities, the player's slot left out, rest on a goal.
pub open spec fn goals_among(v: UniverseView, n: int) -> int
    decreases n,
{
    if n <= 0 {
        0
    } else {
        goals_among(v, n - 1) + if n - 1 != v.player_id && on_goal(v, v.foreground[n - 1]) { 1int } else { 0int }
    }
}

/// How many entities other than the player rest on a goal.
pub open spec fn goals_satisfied(v: UniverseView) -> int {
    goals_among(v, v.foreground.len() as int)
}

/// Whether every crate rests on a goal.
pub open spec fn won(v: UniverseView) -> bool {
    v.crates_ok == v.foreground.len() - 1
}

/// The invariant of every state: sizes fit, every entity is on the grid, the
/// player slot names an entity, and the counter is the number of entities
/// other than the player that rest on a goal.
pub open spec fn valid(v: UniverseView) -> bool {
    &&& v.width >= 0
    &&& 1 <= v.height <= i32::MAX
    &&& v.width * v.height <= i32::MAX
    &&& v.background.len() == v.width * v.height
    &&& v.foreground.len() <= v.width * v.height
    &&& forall|i: int| 0 <= i < v.foreground.len() ==> in_bounds(v, #[trigger] v.foreground[i].x as int, v.foreground[i].y as int)
    &&& (v.player_id < v.foreground.len() || v.foreground.len() == 0)
    &&& v.crates_ok == goals_satisfied(v)
}

/// The state that a level text starts in.
pub open spec fn initial(b: Seq<u8>) -> UniverseView {
    let lines = split_lines(b);
    let w = level_width(lines);
    let h = level_height(lines);
    UniverseView {
        width: w,
        height: h,
        background: level_background(lines, w, h),
        foreground: level_foreground(lines, w, w * h),
        player_id: match level_player(lines, w, w * h) {
            Some(p) => p,
            None => 0,
        },
        crates_ok: 0,
    }
}

/// Whether a level text's grid size and cell count fit in an `i32`.
pub open spec fn level_fits(b: Seq<u8>) -> bool {
    let lines = split_lines(b);
    level_height(lines) <= i32::MAX && level_width(lines) * level_height(lines) <= i32::MAX
}

/// Cell `(x, y)` of a `w` by `h` grid sits at index `y * w + x`, and that
/// index gives back its column and row.
pub proof fn lemma_grid_index(x: int, y: int, w: int, h: int)
    requires
        0 <= x < w,
        0 <= y < h,
    ensures
        0 <= y * w + x < w * h,
        (y * w + x) % w == x,
        (y * w + x) / w == y,
{
    assert(0 <= y * w + x < w * h) by (nonlinear_arith)
        requires
            0 <= x < w,
            0 <= y < h,
    ;
    lemma_fundamental_div_mod_converse(y * w + x, w, y, x);
}

/// A grid whose cell count fits in an `i32` is no wider than that.
pub proof fn lemma_width_fits(v: UniverseView)
    requires
        valid(v),
    ensures
        v.width <= i32::MAX,
{
    assert(v.width <= i32::MAX) by (nonlinear_arith)
        requires
            v.width * v.height <= i32::MAX,
            v.height >= 1,
            v.width >= 0,
    ;
}

/// What `first_at` finds: a match no earlier than `i`, and no match before it.
pub proof fn lemma_first_at(fg: Seq<ForegroundElement>, x: int, y: int, i: int)
    requires
        0 <= i <= fg.len(),
    ensures
        i <= first_at(fg, x, y, i) <= fg.len(),
        first_at(fg, x, y, i) < fg.len() ==> fg[first_at(fg, x, y, i)].x == x && fg[first_at(fg, x, y, i)].y == y,
        forall|j: int| i <= j < first_at(fg, x, y, i) ==> !(fg[j].x == x && fg[j].y == y),
    decreases fg.len() - i,
{
    if i < fg.len() && !(fg[i].x == x && fg[i].y == y) {
        lemma_first_at(fg, x, y, i + 1);
    }
}

/// The goal count lies between zero and the number of entities counted.
pub proof fn lemma_goals_among_range(v: UniverseView, n: int)
    requires
        n >= 0,
    ensures
        0 <= goals_among(v, n) <= n,
    decreases n,
{
    if n > 0 {
        lemma_goals_among_range(v, n - 1);
    }
}

/// Replacing entity `k` changes the goal count by that entity's part alone.
pub proof fn lemma_goals_among_update(v: UniverseView, w: UniverseView, k: int, n: int)
    requires
        0 <= k < v.foreground.len(),
        w.foreground.len() == v.foreground.len(),
        forall|j: int| 0 <= j < v.foreground.len() && j != k ==> w.foreground[j] == v.foreground[j],
        w.width == v.width,
        w.height == v.height,
        w.background == v.background,
        w.player_id == v.player_id,
        0 <= n <= v.foreground.len(),
    ensures
        goals_among(w, n) == goals_among(v, n) + if k < n && k != v.player_id {
            (if on_goal(w, w.foreground[k]) { 1int } else { 0int }) - (if on_goal(v, v.foreground[k]) { 1int } else { 0int })
        } else {
            0int
        },
    decreases n,
{
    if n > 0 {
        lemma_goals_among_update(v, w, k, n - 1);
    }
}

/// A move keeps every state valid.
pub proof fn lemma_step_valid(v: UniverseView, dx: int, dy: int)
    requires
        valid(v),
    ensures
        valid(step(v, dx, dy)),
{
    let fg = v.foreground;
    let pid = v.player_id as int;
    if pid >= fg.len() {
        return;
    }
    lemma_width_fits(v);
    let tx = fg[pid].x + dx;
    let ty = fg[pid].y + dy;
    if !in_bounds(v, tx, ty) || tile(v, tx, ty) == BackgroundElementType::Wall {
        return;
    }
    let c = first_at(fg, tx, ty, 0);
    lemma_first_at(fg, tx, ty, 0);
    if c >= fg.len() {
        let v2 = step(v, dx, dy);
        assert(v2.foreground[pid].x == tx && v2.foreground[pid].y == ty);
        lemma_goals_among_update(v, v2, pid, fg.len() as int);
        assert forall|i: int| 0 <= i < v2.foreground.len() implies in_bounds(v2, #[trigger] v2.foreground[i].x as int, v2.foreground[i].y as int) by {
            if i != pid {
                assert(v2.foreground[i] == fg[i]);
            }
        }
        return;
    }
    let ux = tx + dx;
    let uy = ty + dy;
    lemma_first_at(fg, ux, uy, 0);
    if !in_bounds(v, ux, uy) || tile(v, ux, uy) == BackgroundElementType::Wall || first_at(fg, ux, uy, 0) < fg.len() {
        return;
    }
    // The pushed entity is not the player: they stand on different cells.
    assert(c != pid);
    let fg1 = fg.update(c, shifted(fg[c], dx, dy));
    let v1 = UniverseView { foreground: fg1, ..v };
    let v2 = step(v, dx, dy);
    assert(fg1[pid] == fg[pid]);
    assert(v2.foreground == fg1.update(pid, shifted(fg1[pid], dx, dy)));
    lemma_goals_among_update(v, v1, c, fg.len() as int);
    lemma_goals_among_update(v1, v2, pid, fg.len() as int);
    assert(on_goal(v, fg[c]) == (tile(v, tx, ty) == BackgroundElementType::Goal));
    assert(on_goal(v1, fg1[c]) == (tile(v, ux, uy) == BackgroundElementType::Goal));
    assert forall|i: int| 0 <= i < v2.foreground.len() implies in_bounds(v2, #[trigger] v2.foreground[i].x as int, v2.foreground[i].y as int) by {
        if i != pid && i != c {
            assert(v2.foreground[i] == fg[i]);
        }
    }
}

/// No entity of a state is counted while none rests on a goal.
proof fn lemma_goals_among_zero(v: UniverseView, n: int)
    requires
        0 <= n <= v.foreground.len(),
        forall|k: int| 0 <= k < n ==> !on_goal(v, #[trigger] v.foreground[k]),
    ensures
        goals_among(v, n) == 0,
    decreases n,
{
    if n > 0 {
        lemma_goals_among_zero(v, n - 1);
    }
}

/// A level whose size fits starts in a valid state.
pub proof fn lemma_initial_valid(b: Seq<u8>)
    requires
        level_fits(b),
    ensures
        valid(initial(b)),
{
    let lines = split_lines(b);
    lemma_split_lines_nonempty(b);
    let v = initial(b);
    let w = v.width;
    let h = v.height;
    lemma_level_foreground(lines, w, h, w * h);
    lemma_level_player(lines, w, w * h);
    assert forall|k: int| 0 <= k < v.foreground.len() implies !on_goal(v, #[trigger] v.foreground[k]) by {
        let e = v.foreground[k];
        lemma_grid_index(e.x as int, e.y as int, w, h);
        assert(tile(v, e.x as int, e.y as int) == tile_of(cell(lines, e.x as int, e.y as int)));
    }
    assert forall|i: int| 0 <= i < v.foreground.len() implies in_bounds(v, #[trigger] v.foreground[i].x as int, v.foreground[i].y as int) by {
        let e = level_foreground(lines, w, w * h)[i];
    }
    lemma_goals_among_zero(v, v.foreground.len() as int);
}

/// A game: the grid, its entities and the count of crates on goals.
pub struct Universe {
    width: i32,
    height: i32,
    background: Vec<BackgroundElementType>,
    foreground: Vec<ForegroundElement>,
    player_id: usize,
    number_crates_ok: i32,
}

impl View for Universe {
    type V = UniverseView;

    closed spec fn view(&self) -> UniverseView {
        UniverseView {
            width: self.width as int,
            height: self.height as int,
            background: self.background@,
            foreground: self.foreground@,
            player_id: self.player_id as nat,
            crates_ok: self.number_crates_ok as int,
        }
    }
}

/// The built-in level.
pub const LEVEL3: &'static str = "#########\n##  #   #\n#.$.  $ #\n# #  ## #\n# @$.$. #\n#########";

impl Universe {
    fn is_valid(&self, x: i64, y: i64) -> (r: bool)
        ensures
            r == in_bounds(self@, x as int, y as int),
    {
        x >= 0 && x < self.width as i64 && y >= 0 && y < self.height as i64
    }

    fn get_1D_from_2D(&self, x: i32, y: i32) -> (r: usize)
        requires
            valid(self@),
            in_bounds(self@, x as int, y as int),
        ensures
            r == y * self@.width + x,
            r < self@.background.len(),
    {
        proof {
            lemma_grid_index(x as int, y as int, self@.width, self@.height);
        }
        (y * self.width + x) as usize
    }

    /// Looks for the first entity at `(x, y)`; when there is one, stores its
    /// index in `i_crate`.
    fn crate_at_pos(&self, x: i32, y: i32, i_crate: &mut usize) -> (r: bool)
        ensures
            r == (first_at(self@.foreground, x as int, y as int, 0) < self@.foreground.len()),
            r ==> *final(i_crate) == first_at(self@.foreground, x as int, y as int, 0),
            !r ==> *final(i_crate) == *old(i_crate),
    {
        let ghost fg = self@.foreground;
        let mut i: usize = 0;
        while i < self.foreground.len()
            invariant
                fg == self@.foreground,
                0 <= i <= fg.len(),
                first_at(fg, x as int, y as int, 0) == first_at(fg, x as int, y as int, i as int),
                *i_crate == *old(i_crate),
            decreases fg.len() - i,
        {
            if self.foreground[i].x == x && self.foreground[i].y == y {
                *i_crate = i;
                return true;
            }
            i = i + 1;
        }
        false
    }

    pub fn width(&self) -> (r: i32)
        ensures
            r == self@.width,
    {
        self.width
    }

    pub fn height(&self) -> (r: i32)
        ensures
            r == self@.height,
    {
        self.height
    }

    /// The background layer, row-major.
    pub fn background(&self) -> (r: &[BackgroundElementType])
        ensures
            r@ == self@.background,
    {
        self.background.as_slice()
    }

    pub fn foreground_size(&self) -> (r: usize)
        ensures
            r == self@.foreground.len(),
    {
        self.foreground.len()
    }

    pub fn get_foreground_elem(&self, i: usize) -> (r: ForegroundElement)
        requires
            i < self@.foreground.len(),
        ensures
            r == self@.foreground[i as int],
    {
        self.foreground[i]
    }

    pub fn number_crates_ok(&self) -> (r: i32)
        ensures
            r == self@.crates_ok,
    {
        self.number_crates_ok
    }

    /// The game of the built-in level.
    pub fn from_level_const() -> (r: Universe)
        ensures
            valid(r@),
            r@ == initial(LEVEL3.spec_bytes()),
    {
        proof {
            broadcast use vstd::string::group_string_axioms;
            reveal_strlit("#########\n##  #   #\n#.$.  $ #\n# #  ## #\n# @$.$. #\n#########");
            let l = "#########\n##  #   #\n#.$.  $ #\n# #  ## #\n# @$.$. #\n#########";
            assert(LEVEL3@ == l@);
            assert(vstd::string::is_ascii(LEVEL3));
            let b = LEVEL3.spec_bytes();
            assert(b.len() == 59);
            lemma_split_lines_bounds(b);
            lemma_split_lines_nonempty(b);
            let lines = split_lines(b);
            assert(level_width(lines) * level_height(lines) <= 59 * 60) by (nonlinear_arith)
                requires
                    0 <= level_width(lines) <= 59,
                    0 <= level_height(lines) <= 60,
            ;
        }
        Universe::from_level(LEVEL3)
    }

    /// Parses a level text into a fresh game.
    pub fn from_level(level_string: &str) -> (r: Universe)
        requires
            level_fits(level_string.spec_bytes()),
        ensures
            valid(r@),
            r@ == initial(level_string.spec_bytes()),
    {
        let mut level = Level::new(level_string);
        proof {
            assert(level.spec_width() <= i32::MAX) by (nonlinear_arith)
                requires
                    level.spec_width() * level.spec_height() <= i32::MAX,
                    level.spec_height() >= 1,
                    level.spec_width() >= 0,
            ;
        }
        let width = level.width as i32;
        let height = level.height as i32;
        let background: Vec<BackgroundElementType> = level.get_background();
        let foreground: Vec<ForegroundElement> = level.get_foreground();
        let player_id = level.player_id;
        let r = Universe { width, height, background, foreground, player_id, number_crates_ok: 0 };
        proof {
            let b = level_string.spec_bytes();
            lemma_initial_valid(b);
            let i = initial(b);
            assert(r@.width == i.width);
            assert(r@.height == i.height);
            assert(r@.background == i.background);
            assert(r@.foreground == i.foreground);
            assert(r@.player_id == i.player_id);
            assert(r@ == initial(level_string.spec_bytes()));
        }
        r
    }

    /// The background tile of cell `(x, y)`, which must lie on the grid.
    pub fn get_background_2D(&self, x: i32, y: i32) -> (r: BackgroundElementType)
        requires
            valid(self@),
            in_bounds(self@, x as int, y as int),
        ensures
            r == tile(self@, x as int, y as int),
    {
        self.background[self.get_1D_from_2D(x, y)]
    }

    /// Tries to move the player by `(dx, dy)`, pushing a crate that stands in
    /// the way; a move that is not allowed changes nothing.
    pub fn move_player(&mut self, dx: i32, dy: i32)
        requires
            valid(old(self)@),
        ensures
            valid(final(self)@),
            final(self)@ == step(old(self)@, dx as int, dy as int),
    {
        let ghost v = self@;
        proof {
            lemma_step_valid(v, dx as int, dy as int);
            lemma_width_fits(v);
        }
        if self.player_id >= self.foreground.len() {
            return;
        }
        let player = self.foreground[self.player_id];
        let new_x: i64 = player.x as i64 + dx as i64;
        let new_y: i64 = player.y as i64 + dy as i64;
        if !self.is_valid(new_x, new_y) {
            return;
        }
        let nx = new_x as i32;
        let ny = new_y as i32;
        let next_type = self.get_background_2D(nx, ny);
        if next_type == BackgroundElementType::Wall {
            return;
        }
        let mut i_crate: usize = 0;
        if self.crate_at_pos(nx, ny, &mut i_crate) {
            let new_new_x: i64 = nx as i64 + dx as i64;
            let new_new_y: i64 = ny as i64 + dy as i64;
            if !self.is_valid(new_new_x, new_new_y) {
                return;
            }
            let nnx = new_new_x as i32;
            let nny = new_new_y as i32;
            let next_next_type = self.get_background_2D(nnx, nny);
            if next_next_type == BackgroundElementType::Wall {
                return;
            }
            let mut i_crate_crate: usize = 0;
            if self.crate_at_pos(nnx, nny, &mut i_crate_crate) {
                return;
            }
            proof {
                lemma_first_at(v.foreground, nx as int, ny as int, 0);
                lemma_first_at(v.foreground, nnx as int, nny as int, 0);
                assert(i_crate != self.player_id);
            }
            proof {
                let stepped = step(v, dx as int, dy as int);
                lemma_goals_among_range(v, v.foreground.len() as int);
                lemma_goals_among_range(stepped, stepped.foreground.len() as int);
            }
            if next_type == BackgroundElementType::Goal {
                self.number_crates_ok = self.number_crates_ok - 1;
            }
            if next_next_type == BackgroundElementType::Goal {
                self.number_crates_ok = self.number_crates_ok + 1;
            }
            let mut pushed = self.foreground[i_crate];
            pushed.x = nnx;
            pushed.y = nny;
            self.foreground.set(i_crate, pushed);
        }
        let mut moved = self.foreground[self.player_id];
        moved.x = nx;
        moved.y = ny;
        self.foreground.set(self.player_id, moved);
        proof {
            assert(self@.foreground =~= step(v, dx as int, dy as int).foreground);
        }
    }

    /// Whether every crate rests on a goal: the counter equals the number of
    /// entities less the player.
    pub fn has_won(&self) -> (r: bool)
        requires
            valid(self@),
        ensures
            r == won(self@),
    {
        self.number_crates_ok == (self.foreground_size() as i32 - 1)
    }
}

} // verus!
