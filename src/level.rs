use vstd::prelude::*;
use vstd::string::{StringSliceAdditionalSpecFns, StrSliceExecFns};
use vstd::arithmetic::div_mod::lemma_fundamental_div_mod;
use crate::elements::{BackgroundElementType, ForegroundElement, ForegroundElementType};

verus! {

pub const NEWLINE: u8 = 10;

/// The rows of a level: its bytes cut at every newline. A text without
/// newlines is one row, so there is always at least one.
pub open spec fn split_lines(b: Seq<u8>) -> Seq<Seq<u8>>
    decreases b.len(),
{
    if b.len() == 0 {
        seq![Seq::empty()]
    } else {
        let prev = split_lines(b.drop_last());
        if b.last() == NEWLINE {
            prev.push(Seq::empty())
        } else {
            prev.update(prev.len() - 1, prev.last().push(b.last()))
        }
    }
}

pub proof fn lemma_split_lines_nonempty(b: Seq<u8>)
    ensures
        split_lines(b).len() >= 1,
    decreases b.len(),
{
    if b.len() > 0 {
        lemma_split_lines_nonempty(b.drop_last());
    }
}

/// No text of `n` bytes has more than `n + 1` rows, nor a row longer than `n`.
pub proof fn lemma_split_lines_bounds(b: Seq<u8>)
    ensures
        split_lines(b).len() <= b.len() + 1,
        forall|i: int| 0 <= i < split_lines(b).len() ==> #[trigger] split_lines(b)[i].len() <= b.len(),
    decreases b.len(),
{
    if b.len() > 0 {
        lemma_split_lines_bounds(b.drop_last());
        lemma_split_lines_nonempty(b.drop_last());
    }
}

/// The width of a level: the length of its first row.
pub open spec fn level_width(lines: Seq<Seq<u8>>) -> int {
    lines[0].len() as int
}

/// The height of a level: its number of rows.
pub open spec fn level_height(lines: Seq<Seq<u8>>) -> int {
    lines.len() as int
}

/// The byte at column `x` of row `y`; a row shorter than the first is
/// padded with spaces.
pub open spec fn cell(lines: Seq<Seq<u8>>, x: int, y: int) -> char {
    if 0 <= y < lines.len() && 0 <= x < lines[y].len() {
        lines[y][x] as char
    } else {
        ' '
    }
}

/// The background tile that a level byte stands for.
pub open spec fn tile_of(c: char) -> BackgroundElementType {
    if c == '#' {
        BackgroundElementType::Wall
    } else if c == '.' {
        BackgroundElementType::Goal
    } else {
        BackgroundElementType::Nothing
    }
}

/// The background layer, row-major, one tile per cell of a `w` by `h` grid.
pub open spec fn level_background(lines: Seq<Seq<u8>>, w: int, h: int) -> Seq<BackgroundElementType> {
    Seq::new((w * h) as nat, |i: int| tile_of(cell(lines, i % w, i / w)))
}

/// The entity, if any, that a level byte places at `(x, y)`.
pub open spec fn entity_of(c: char, x: int, y: int) -> Seq<ForegroundElement> {
    if c == '@' {
        seq![ForegroundElement { x: x as i32, y: y as i32, element_type: ForegroundElementType::Player }]
    } else if c == '$' {
        seq![ForegroundElement { x: x as i32, y: y as i32, element_type: ForegroundElementType::Crate }]
    } else {
        Seq::empty()
    }
}

/// The entities of the first `n` cells of a grid of width `w`, in row-major order.
pub open spec fn level_foreground(lines: Seq<Seq<u8>>, w: int, n: int) -> Seq<ForegroundElement>
    decreases n,
{
    if n <= 0 || w <= 0 {
        Seq::empty()
    } else {
        level_foreground(lines, w, n - 1) + entity_of(cell(lines, (n - 1) % w, (n - 1) / w), (n - 1) % w, (n - 1) / w)
    }
}

/// Where the last player marker among the first `n` cells stands in the
/// entity sequence, if there is one.
pub open spec fn level_player(lines: Seq<Seq<u8>>, w: int, n: int) -> Option<nat>
    decreases n,
{
    if n <= 0 || w <= 0 {
        None
    } else if cell(lines, (n - 1) % w, (n - 1) / w) == '@' {
        Some(level_foreground(lines, w, n - 1).len())
    } else {
        level_player(lines, w, n - 1)
    }
}

/// A parsed level text: its rows, its size, and the player slot.
/// Column and row of cell `i` in a `w` by `h` grid.
pub proof fn lemma_cell_coords(i: int, w: int, h: int)
    requires
        0 <= i < w * h,
        w >= 0,
    ensures
        0 <= i % w < w,
        0 <= i / w < h,
        i == (i / w) * w + i % w,
{
    assert(w > 0) by (nonlinear_arith)
        requires
            0 <= i < w * h,
            w >= 0,
    ;
    lemma_fundamental_div_mod(i, w);
    assert(0 <= i % w < w);
    assert(0 <= i / w < h) by (nonlinear_arith)
        requires
            i == w * (i / w) + i % w,
            0 <= i % w < w,
            0 <= i < w * h,
            w > 0,
    ;
    assert(i == (i / w) * w + i % w) by (nonlinear_arith)
        requires
            i == w * (i / w) + i % w,
    ;
}

/// Every entity of the first `n` cells stands on a cell of the grid that
/// holds its marker, and there are at most `n` of them.
pub proof fn lemma_level_foreground(lines: Seq<Seq<u8>>, w: int, h: int, n: int)
    requires
        w >= 0,
        0 <= n <= w * h,
        w * h <= i32::MAX,
    ensures
        level_foreground(lines, w, n).len() <= n,
        forall|k: int| 0 <= k < level_foreground(lines, w, n).len() ==> {
            let e = #[trigger] level_foreground(lines, w, n)[k];
            &&& 0 <= e.x < w
            &&& 0 <= e.y < h
            &&& (cell(lines, e.x as int, e.y as int) == '@' || cell(lines, e.x as int, e.y as int) == '$')
            &&& e.y * w + e.x < n
        },
        forall|k: int, l: int| 0 <= k < l < level_foreground(lines, w, n).len() ==>
            (#[trigger] level_foreground(lines, w, n)[k]).y * w + level_foreground(lines, w, n)[k].x
                < (#[trigger] level_foreground(lines, w, n)[l]).y * w + level_foreground(lines, w, n)[l].x,
    decreases n,
{
    if n > 0 && w > 0 {
        lemma_level_foreground(lines, w, h, n - 1);
        lemma_cell_coords(n - 1, w, h);
        assert(w <= w * h && h <= w * h) by (nonlinear_arith)
            requires
                0 <= n - 1 < w * h,
                w > 0,
        ;
        let prev = level_foreground(lines, w, n - 1);
        let cur = level_foreground(lines, w, n);
        assert forall|k: int| 0 <= k < cur.len() implies {
            let e = #[trigger] cur[k];
            &&& 0 <= e.x < w
            &&& 0 <= e.y < h
            &&& (cell(lines, e.x as int, e.y as int) == '@' || cell(lines, e.x as int, e.y as int) == '$')
            &&& e.y * w + e.x < n
        } by {
            if k < prev.len() {
                assert(cur[k] == prev[k]);
            }
        }
        assert forall|k: int, l: int| 0 <= k < l < cur.len() implies
            (#[trigger] cur[k]).y * w + cur[k].x < (#[trigger] cur[l]).y * w + cur[l].x by {
            assert(cur[k] == prev[k]);
            if l < prev.len() {
                assert(cur[l] == prev[l]);
            }
        }
    }
}

/// The recorded player slot names an entity.
pub proof fn lemma_level_player(lines: Seq<Seq<u8>>, w: int, n: int)
    ensures
        level_player(lines, w, n) matches Some(p) ==> p < level_foreground(lines, w, n).len(),
    decreases n,
{
    if n > 0 && w > 0 {
        lemma_level_player(lines, w, n - 1);
    }
}

/// The view of each row of `v`.
pub open spec fn rows_of(v: Seq<Vec<u8>>) -> Seq<Seq<u8>> {
    Seq::new(v.len(), |i: int| v[i]@)
}

pub struct Level {
    pub width: usize,
    pub height: usize,
    pub content: Vec<Vec<u8>>,
    pub player_id: usize,
}

impl Level {
    pub open spec fn lines(&self) -> Seq<Seq<u8>> {
        rows_of(self.content@)
    }

    pub open spec fn spec_width(&self) -> int {
        self.width as int
    }

    pub open spec fn spec_height(&self) -> int {
        self.height as int
    }

    pub open spec fn spec_player_id(&self) -> nat {
        self.player_id as nat
    }

    /// The size fields agree with the rows.
    pub open spec fn wf(&self) -> bool {
        &&& self.lines().len() >= 1
        &&& self.spec_width() == level_width(self.lines())
        &&& self.spec_height() == level_height(self.lines())
    }

    /// The grid's size and cell count fit in an `i32`.
    pub open spec fn spec_fits(&self) -> bool {
        &&& self.spec_height() <= i32::MAX
        &&& self.spec_width() * self.spec_height() <= i32::MAX
    }

    pub fn new(level_string: &str) -> (r: Level)
        ensures
            r.wf(),
            r.lines() == split_lines(level_string.spec_bytes()),
            r.spec_player_id() == 0,
    {
        let bytes = level_string.as_bytes_vec();
        let ghost b = bytes@;
        let mut content: Vec<Vec<u8>> = Vec::new();
        let mut current: Vec<u8> = Vec::new();
        let mut i: usize = 0;
        while i < bytes.len()
            invariant
                bytes@ == b,
                0 <= i <= b.len(),
                rows_of(content@).push(current@) == split_lines(b.take(i as int)),
            decreases b.len() - i,
        {
            let c = bytes[i];
            proof {
                assert(b.take(i + 1).drop_last() == b.take(i as int));
            }
            let ghost pre = rows_of(content@);
            let ghost cur = current@;
            if c == NEWLINE {
                let line = current;
                content.push(line);
                current = Vec::new();
                proof {
                    assert(rows_of(content@) =~= pre.push(cur));
                    assert(rows_of(content@).push(current@) =~= split_lines(b.take(i + 1)));
                }
            } else {
                current.push(c);
                proof {
                    assert(rows_of(content@).push(current@) =~= split_lines(b.take(i + 1)));
                }
            }
            i = i + 1;
        }
        let ghost pre = rows_of(content@);
        let ghost cur = current@;
        content.push(current);
        proof {
            assert(rows_of(content@) =~= pre.push(cur));
            assert(b.take(b.len() as int) == b);
            lemma_split_lines_nonempty(b);
        }
        let width = content[0].len();
        let height = content.len();
        Level { width, height, content, player_id: 0 }
    }

    /// Whether the grid's size and cell count fit in an `i32`.
    pub fn fits(&self) -> (r: bool)
        requires
            self.wf(),
        ensures
            r == self.spec_fits(),
    {
        let m: usize = i32::MAX as usize;
        if self.height > m {
            return false;
        }
        let w = self.width;
        let h = self.height;
        let q = m / h;
        proof {
            lemma_fundamental_div_mod(m as int, h as int);
            assert((w <= q) == (w * h <= m)) by (nonlinear_arith)
                requires
                    m == h * q + m % h,
                    0 <= m % h < h,
                    h > 0,
                    w >= 0,
            ;
        }
        w <= q
    }

    fn convert_background_char(char_elem: char) -> (r: BackgroundElementType)
        ensures
            r == tile_of(char_elem),
    {
        match char_elem {
            ' ' => BackgroundElementType::Nothing,
            '#' => BackgroundElementType::Wall,
            '.' => BackgroundElementType::Goal,
            _ => BackgroundElementType::Nothing,
        }
    }

    fn get_char_2D(&self, x: usize, y: usize) -> (r: char)
        requires
            self.wf(),
        ensures
            r == cell(self.lines(), x as int, y as int),
    {
        if y < self.content.len() && x < self.content[y].len() {
            self.content[y][x] as char
        } else {
            ' '
        }
    }

    fn get_2D_from_1D(&self, i: usize) -> (r: (usize, usize))
        requires
            self.spec_width() > 0,
        ensures
            r.0 == i as int % self.spec_width(),
            r.1 == i as int / self.spec_width(),
    {
        (i % self.width, i / self.width)
    }

    fn get_char_1D(&self, i: usize) -> (r: char)
        requires
            self.wf(),
            self.spec_width() > 0,
        ensures
            r == cell(self.lines(), i as int % self.spec_width(), i as int / self.spec_width()),
    {
        let (x, y) = self.get_2D_from_1D(i);
        self.get_char_2D(x, y)
    }

    /// The background layer: one tile per cell, row-major.
    pub fn get_background(&self) -> (r: Vec<BackgroundElementType>)
        requires
            self.wf(),
            self.spec_fits(),
        ensures
            r@ == level_background(self.lines(), self.spec_width(), self.spec_height()),
    {
        let n: usize = self.width * self.height;
        let ghost w = self.spec_width();
        let ghost h = self.spec_height();
        let mut r: Vec<BackgroundElementType> = Vec::new();
        let mut i: usize = 0;
        while i < n
            invariant
                self.wf(),
                n == w * h,
                w == self.spec_width(),
                h == self.spec_height(),
                w >= 0,
                0 <= i <= n,
                r@.len() == i,
                forall|j: int| 0 <= j < i ==> r@[j] == tile_of(cell(self.lines(), j % w, j / w)),
            decreases n - i,
        {
            proof {
                lemma_cell_coords(i as int, w, h);
            }
            let c = self.get_char_1D(i);
            r.push(Level::convert_background_char(c));
            i = i + 1;
        }
        assert(r@ =~= level_background(self.lines(), w, h));
        r
    }

    /// The entities of the level, row-major; records the slot of the last
    /// player marker, if there is one.
    pub fn get_foreground(&mut self) -> (r: Vec<ForegroundElement>)
        requires
            old(self).wf(),
            old(self).spec_fits(),
        ensures
            final(self).wf(),
            final(self).lines() == old(self).lines(),
            final(self).spec_width() == old(self).spec_width(),
            final(self).spec_height() == old(self).spec_height(),
            r@ == level_foreground(old(self).lines(), old(self).spec_width(), old(self).spec_width() * old(self).spec_height()),
            final(self).spec_player_id() == match level_player(old(self).lines(), old(self).spec_width(), old(self).spec_width() * old(self).spec_height()) {
                Some(p) => p,
                None => old(self).spec_player_id(),
            },
    {
        let n: usize = self.width * self.height;
        let ghost w = self.spec_width();
        let ghost h = self.spec_height();
        let ghost lines = self.lines();
        let ghost pid0 = self.spec_player_id();
        let mut foreground: Vec<ForegroundElement> = Vec::new();
        let mut i: usize = 0;
        while i < n
            invariant
                self.wf(),
                self.lines() == lines,
                w == self.spec_width(),
                h == self.spec_height(),
                n == w * h,
                h >= 1,
                w * h <= i32::MAX,
                h <= i32::MAX,
                0 <= i <= n,
                foreground@ == level_foreground(lines, w, i as int),
                self.spec_player_id() == match level_player(lines, w, i as int) {
                    Some(p) => p,
                    None => pid0,
                },
            decreases n - i,
        {
            proof {
                lemma_cell_coords(i as int, w, h);
                assert(w <= i32::MAX) by (nonlinear_arith)
                    requires
                        w * h <= i32::MAX,
                        h >= 1,
                        w >= 0,
                ;
            }
            let (x, y) = self.get_2D_from_1D(i);
            let c = self.get_char_1D(i);
            if c == '@' {
                self.player_id = foreground.len();
                foreground.push(
                    ForegroundElement { x: x as i32, y: y as i32, element_type: ForegroundElementType::Player },
                );
            }
            if c == '$' {
                foreground.push(
                    ForegroundElement { x: x as i32, y: y as i32, element_type: ForegroundElementType::Crate },
                );
            }
            proof {
                assert(foreground@ =~= level_foreground(lines, w, i + 1));
            }
            i = i + 1;
        }
        foreground
    }
}

} // verus!
