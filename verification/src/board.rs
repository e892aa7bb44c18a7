//! The minesweeper board: its invariants, construction, queries and moves.

use vstd::prelude::*;
use crate::random::random_range;

verus! {

/// A cell coordinate: (column, row), counted from the top-left corner.
pub type Position = (usize, usize);

/// The outcome of opening a cell: either a mine was hit, or the cell is
/// safe and carries the number of mines among its in-bounds neighbours.
#[derive(Debug, Clone, Copy, PartialEq, Eq, Structural)]
pub enum OpenResult {
    Mine,
    NoMine(u8),
}

/// A minesweeper board. The three position collections are kept free of
/// duplicates, so each is a set of cells in the sense of the contracts.
pub struct Minesweeper {
    width: usize,
    height: usize,
    open_fields: Vec<Position>,
    mines: Vec<Position>,
    flagged_fields: Vec<Position>,
}

impl Minesweeper {
    /// The number of columns.
    pub closed spec fn spec_width(self) -> int {
        self.width as int
    }

    /// The number of rows.
    pub closed spec fn spec_height(self) -> int {
        self.height as int
    }

    /// Whether a position lies on the board.
    pub open spec fn pos_in_bounds(self, p: Position) -> bool {
        (p.0 as int) < self.spec_width() && (p.1 as int) < self.spec_height()
    }

    /// Whether a cell holds a mine.
    pub closed spec fn spec_is_mine(self, p: Position) -> bool {
        self.mines@.contains(p)
    }

    /// Whether a cell has been revealed.
    pub closed spec fn spec_is_open(self, p: Position) -> bool {
        self.open_fields@.contains(p)
    }

    /// Whether a cell is currently flagged.
    pub closed spec fn spec_is_flagged(self, p: Position) -> bool {
        self.flagged_fields@.contains(p)
    }

    /// How many mines the board holds.
    pub closed spec fn spec_mine_count(self) -> int {
        self.mines@.len() as int
    }

    /// The board's invariant: positive dimensions, every recorded position in
    /// bounds, no duplicates in any collection, and no cell both flagged and
    /// open.
    pub closed spec fn wf(self) -> bool {
        &&& 0 < self.width
        &&& 0 < self.height
        &&& forall|p: Position| #[trigger] self.mines@.contains(p) ==> self.pos_in_bounds(p)
        &&& forall|p: Position| #[trigger] self.open_fields@.contains(p) ==> self.pos_in_bounds(p)
        &&& forall|p: Position| #[trigger] self.flagged_fields@.contains(p) ==> self.pos_in_bounds(
            p,
        )
        &&& self.mines@.no_duplicates()
        &&& self.open_fields@.no_duplicates()
        &&& self.flagged_fields@.no_duplicates()
        &&& forall|p: Position|
            #[trigger] self.flagged_fields@.contains(p) ==> !self.open_fields@.contains(p)
    }
}

/// Whether two positions are distinct and orthogonally or diagonally
/// adjacent: each coordinate differs by at most one.
pub open spec fn is_adjacent(p: Position, q: Position) -> bool {
    &&& q != p
    &&& p.0 <= q.0 + 1
    &&& q.0 <= p.0 + 1
    &&& p.1 <= q.1 + 1
    &&& q.1 <= p.1 + 1
}

impl Minesweeper {
    /// One if the cell at mathematical coordinates (i, j) is on the board and
    /// mined, zero otherwise.
    pub open spec fn mine_indicator(self, i: int, j: int) -> int {
        if 0 <= i < self.spec_width() && 0 <= j < self.spec_height()
            && self.spec_is_mine(((i as usize), (j as usize))) {
            1
        } else {
            0
        }
    }

    /// The number of mines among the at-most-8 in-bounds neighbours of p:
    /// one indicator term for each of the eight surrounding coordinates.
    pub open spec fn spec_mines_nearby(self, p: Position) -> int {
        let x = p.0 as int;
        let y = p.1 as int;
        self.mine_indicator(x - 1, y - 1) + self.mine_indicator(x, y - 1)
            + self.mine_indicator(x + 1, y - 1) + self.mine_indicator(x - 1, y)
            + self.mine_indicator(x + 1, y) + self.mine_indicator(x - 1, y + 1)
            + self.mine_indicator(x, y + 1) + self.mine_indicator(x + 1, y + 1)
    }

    /// A fresh board: no cell open, no cell flagged, and exactly mine_count
    /// mines placed at random in-bounds positions, no two alike. Each mine is
    /// drawn uniformly from the cells still free, so the placement never
    /// retries and needs mine_count draws in all.
    pub fn new(width: usize, height: usize, mine_count: usize) -> (r: Minesweeper)
        requires
            0 < width,
            0 < height,
            mine_count <= width * height,
            width * height <= usize::MAX,
        ensures
            r.wf(),
            r.spec_width() == width as int,
            r.spec_height() == height as int,
            r.spec_mine_count() == mine_count as int,
            forall|q: Position| !r.spec_is_open(q),
            forall|q: Position| !r.spec_is_flagged(q),
            forall|q: Position| #[trigger] r.spec_is_mine(q) ==> r.pos_in_bounds(q),
    {
        broadcast use vstd::seq_lib::lemma_seq_contains_after_push;

        let mut free: Vec<Position> = Vec::new();
        let mut y: usize = 0;
        while y < height
            invariant
                y <= height,
                free@.len() == width * y,
                forall|q: Position|
                    #[trigger] free@.contains(q) <==> (q.0 < width && q.1 < y),
                free@.no_duplicates(),
                width * height <= usize::MAX,
            decreases height - y,
        {
            let mut x: usize = 0;
            while x < width
                invariant
                    x <= width,
                    y < height,
                    free@.len() == width * y + x,
                    forall|q: Position|
                        #[trigger] free@.contains(q) <==> ((q.0 < width && q.1 < y) || (
                        q.1 == y && q.0 < x)),
                    free@.no_duplicates(),
                    width * height <= usize::MAX,
                decreases width - x,
            {
                proof {
                    assert(!free@.contains((x, y)));
                    lemma_push_unique(free@, (x, y));
                }
                free.push((x, y));
                proof {
                    assert forall|q: Position|
                        #[trigger] free@.contains(q) <==> ((q.0 < width && q.1 < y) || (q.1 == y
                            && q.0 < x + 1)) by {
                        if q.1 == y && q.0 == x {
                            assert(q == (x, y));
                        }
                    }
                    assert(width * y + x + 1 <= width * height) by (nonlinear_arith)
                        requires
                            x < width,
                            y < height,
                            0 <= x,
                            0 <= y,
                            free@.len() == width * y + x + 1,
                    ;
                }
                x += 1;
            }
            proof {
                assert(width * y + width == width * (y + 1)) by (nonlinear_arith);
            }
            y += 1;
        }

        let mut mines: Vec<Position> = Vec::new();
        let mut i: usize = 0;
        while i < mine_count
            invariant
                i <= mine_count,
                mine_count <= width * height,
                mines@.len() == i,
                free@.len() + i == width * height,
                mines@.no_duplicates(),
                free@.no_duplicates(),
                forall|q: Position| #[trigger] mines@.contains(q) ==> !free@.contains(q),
                forall|q: Position|
                    #[trigger] mines@.contains(q) ==> (q.0 < width && q.1 < height),
                forall|q: Position|
                    #[trigger] free@.contains(q) ==> (q.0 < width && q.1 < height),
            decreases mine_count - i,
        {
            let idx = random_range(0, free.len());
            let ghost old_free = free@;
            let p = free.swap_remove(idx);
            proof {
                assert(old_free.contains(p));
                assert forall|a: int, b: int| 0 <= a < b < free@.len() implies free@[a]
                    != free@[b] by {
                    let oa: int = if a == idx { old_free.len() - 1 } else { a };
                    let ob: int = if b == idx { old_free.len() - 1 } else { b };
                    assert(free@[a] == old_free[oa]);
                    assert(free@[b] == old_free[ob]);
                }
                assert(free@.no_duplicates());
                assert forall|q: Position| #[trigger] free@.contains(q) implies old_free.contains(
                    q,
                ) by {
                    let k = choose|k: int| 0 <= k < free@.len() && free@[k] == q;
                    if k == idx {
                        assert(old_free[old_free.len() - 1] == q);
                    } else {
                        assert(old_free[k] == q);
                    }
                }
                assert forall|k: int| 0 <= k < free@.len() implies free@[k] != p by {
                    let ok: int = if k == idx { old_free.len() - 1 } else { k };
                    assert(free@[k] == old_free[ok]);
                }
                assert(!free@.contains(p));
                assert(!mines@.contains(p));
                lemma_push_unique(mines@, p);
            }
            mines.push(p);
            proof {
                assert forall|q: Position| #[trigger] mines@.contains(q) implies !free@.contains(q)
                    && q.0 < width && q.1 < height by {
                }
            }
            i += 1;
        }

        Minesweeper {
            width,
            height,
            open_fields: Vec::new(),
            mines,
            flagged_fields: Vec::new(),
        }
    }

    /// The in-bounds neighbours of p, each exactly once: the at-most-8 cells
    /// adjacent to p, clamped at the board's edges.
    pub fn neighbors(&self, p: Position) -> (r: Vec<Position>)
        requires
            self.wf(),
            self.pos_in_bounds(p),
        ensures
            forall|q: Position|
                #[trigger] r@.contains(q) <==> (self.pos_in_bounds(q) && is_adjacent(p, q)),
            r@.no_duplicates(),
    {
        broadcast use vstd::seq_lib::lemma_seq_contains_after_push;

        let x = p.0;
        let y = p.1;
        let mut r: Vec<Position> = Vec::new();
        if x > 0 && y > 0 {
            r.push((x - 1, y - 1));
        }
        if y > 0 {
            r.push((x, y - 1));
        }
        if x + 1 < self.width && y > 0 {
            r.push((x + 1, y - 1));
        }
        if x > 0 {
            r.push((x - 1, y));
        }
        if x + 1 < self.width {
            r.push((x + 1, y));
        }
        if x > 0 && y + 1 < self.height {
            r.push((x - 1, y + 1));
        }
        if y + 1 < self.height {
            r.push((x, y + 1));
        }
        if x + 1 < self.width && y + 1 < self.height {
            r.push((x + 1, y + 1));
        }
        r
    }

    /// Opens a cell. A flagged cell is only probed: the board does not move
    /// and the cell's adjacency count comes back as a "no mine" result. Any
    /// other cell is added to the open cells (idempotently) and the result
    /// says whether it held a mine, and if not, its adjacency count. Mines,
    /// flags and the board's dimensions never change, and no open cell is
    /// ever closed again.
    pub fn open(&mut self, p: Position) -> (r: OpenResult)
        requires
            old(self).wf(),
            old(self).pos_in_bounds(p),
        ensures
            final(self).wf(),
            final(self).spec_width() == old(self).spec_width(),
            final(self).spec_height() == old(self).spec_height(),
            final(self).spec_mine_count() == old(self).spec_mine_count(),
            forall|q: Position| #[trigger] final(self).spec_is_mine(q) == old(self).spec_is_mine(q),
            forall|q: Position|
                #[trigger] final(self).spec_is_flagged(q) == old(self).spec_is_flagged(q),
            forall|q: Position|
                #[trigger] final(self).spec_mines_nearby(q) == old(self).spec_mines_nearby(q),
            open_monotone(*old(self), *final(self)),
            old(self).spec_is_flagged(p) ==> ((forall|q: Position|
                #[trigger] final(self).spec_is_open(q) == old(self).spec_is_open(q)) && r
                == OpenResult::NoMine(old(self).spec_mines_nearby(p) as u8)),
            !old(self).spec_is_flagged(p) ==> ((forall|q: Position|
                #[trigger] final(self).spec_is_open(q) <==> (old(self).spec_is_open(q) || q == p))
                && r == (if old(self).spec_is_mine(p) {
                OpenResult::Mine
            } else {
                OpenResult::NoMine(old(self).spec_mines_nearby(p) as u8)
            })),
    {
        if contains_pos(&self.flagged_fields, p) {
            let c = self.mines_nearby(p);
            return OpenResult::NoMine(c);
        }
        if !contains_pos(&self.open_fields, p) {
            proof {
                lemma_push_unique(self.open_fields@, p);
            }
            self.open_fields.push(p);
        }
        assert(self.wf());
        if contains_pos(&self.mines, p) {
            OpenResult::Mine
        } else {
            let c = self.mines_nearby(p);
            OpenResult::NoMine(c)
        }
    }

    /// Toggles the flag on a cell: a strict flip on any cell that is still
    /// hidden, and a no-op on a cell that has been opened.
    pub fn toggle_flag(&mut self, p: Position)
        requires
            old(self).wf(),
            old(self).pos_in_bounds(p),
        ensures
            final(self).wf(),
            toggles_flag(*old(self), *final(self), p),
            open_monotone(*old(self), *final(self)),
    {
        if contains_pos(&self.open_fields, p) {
            return;
        }
        if contains_pos(&self.flagged_fields, p) {
            remove_pos(&mut self.flagged_fields, p);
        } else {
            proof {
                lemma_push_unique(self.flagged_fields@, p);
            }
            self.flagged_fields.push(p);
        }
    }

    /// The adjacency count of p: how many of its in-bounds neighbours hold a
    /// mine. A pure read of the mine placement; open and flag state play no
    /// part.
    pub fn mines_nearby(&self, p: Position) -> (r: u8)
        requires
            self.wf(),
            self.pos_in_bounds(p),
        ensures
            r as int == self.spec_mines_nearby(p),
            r <= 8,
    {
        let x = p.0;
        let y = p.1;
        let mut count: u8 = 0;
        if x > 0 && y > 0 && contains_pos(&self.mines, (x - 1, y - 1)) {
            count += 1;
        }
        if y > 0 && contains_pos(&self.mines, (x, y - 1)) {
            count += 1;
        }
        if x + 1 < self.width && y > 0 && contains_pos(&self.mines, (x + 1, y - 1)) {
            count += 1;
        }
        if x > 0 && contains_pos(&self.mines, (x - 1, y)) {
            count += 1;
        }
        if x + 1 < self.width && contains_pos(&self.mines, (x + 1, y)) {
            count += 1;
        }
        if x > 0 && y + 1 < self.height && contains_pos(&self.mines, (x - 1, y + 1)) {
            count += 1;
        }
        if y + 1 < self.height && contains_pos(&self.mines, (x, y + 1)) {
            count += 1;
        }
        if x + 1 < self.width && y + 1 < self.height && contains_pos(&self.mines, (x + 1, y + 1)) {
            count += 1;
        }
        count
    }
}

/// The digit glyph for an adjacency count between zero and eight.
pub open spec fn digit_char(n: int) -> char {
    if n == 0 {
        '0'
    } else if n == 1 {
        '1'
    } else if n == 2 {
        '2'
    } else if n == 3 {
        '3'
    } else if n == 4 {
        '4'
    } else if n == 5 {
        '5'
    } else if n == 6 {
        '6'
    } else if n == 7 {
        '7'
    } else {
        '8'
    }
}

impl Minesweeper {
    /// The glyphs of one cell: a flag or a blank while hidden, a mine when an
    /// opened cell held one, and otherwise the adjacency count's digit padded
    /// with a space to the width of the other glyphs.
    pub open spec fn spec_cell_glyphs(self, x: int, y: int) -> Seq<char> {
        let p = ((x as usize), (y as usize));
        if !self.spec_is_open(p) {
            if self.spec_is_flagged(p) {
                seq!['🚩']
            } else {
                seq!['⬛']
            }
        } else if self.spec_is_mine(p) {
            seq!['💣']
        } else {
            seq![digit_char(self.spec_mines_nearby(p)), ' ']
        }
    }

    /// The first n cells of row y, rendered in column order.
    pub open spec fn spec_row_prefix(self, y: int, n: int) -> Seq<char>
        decreases n,
    {
        if n <= 0 {
            Seq::empty()
        } else {
            self.spec_row_prefix(y, n - 1) + self.spec_cell_glyphs(n - 1, y)
        }
    }

    /// The first n rows of the rendering, each closed by a newline.
    pub open spec fn spec_render_prefix(self, n: int) -> Seq<char>
        decreases n,
    {
        if n <= 0 {
            Seq::empty()
        } else {
            self.spec_render_prefix(n - 1) + self.spec_row_prefix(n - 1, self.spec_width())
                + seq!['\n']
        }
    }

    /// The full textual rendering: every row in order, row-major, each row's
    /// cell glyphs concatenated and followed by a single newline.
    pub open spec fn spec_render(self) -> Seq<char> {
        self.spec_render_prefix(self.spec_height())
    }

    /// Renders the board for inspection, cell by cell in row-major order. A
    /// pure read of the current state.
    pub fn render(&self) -> (r: String)
        requires
            self.wf(),
        ensures
            r@ == self.spec_render(),
    {
        let mut out = String::new();
        let mut y: usize = 0;
        proof {
            assert(out@ =~= self.spec_render_prefix(0));
        }
        while y < self.height
            invariant
                self.wf(),
                y <= self.height,
                out@ == self.spec_render_prefix(y as int),
            decreases self.height - y,
        {
            let mut x: usize = 0;
            proof {
                assert(out@ =~= self.spec_render_prefix(y as int) + self.spec_row_prefix(
                    y as int,
                    0,
                ));
            }
            while x < self.width
                invariant
                    self.wf(),
                    y < self.height,
                    x <= self.width,
                    out@ == self.spec_render_prefix(y as int) + self.spec_row_prefix(
                        y as int,
                        x as int,
                    ),
                decreases self.width - x,
            {
                let p = (x, y);
                if !contains_pos(&self.open_fields, p) {
                    if contains_pos(&self.flagged_fields, p) {
                        push_char(&mut out, '🚩');
                    } else {
                        push_char(&mut out, '⬛');
                    }
                } else if contains_pos(&self.mines, p) {
                    push_char(&mut out, '💣');
                } else {
                    let c = self.mines_nearby(p);
                    push_char(&mut out, digit_glyph(c));
                    push_char(&mut out, ' ');
                }
                proof {
                    assert(out@ =~= self.spec_render_prefix(y as int) + self.spec_row_prefix(
                        y as int,
                        x as int + 1,
                    ));
                }
                x += 1;
            }
            push_char(&mut out, '\n');
            proof {
                assert(out@ =~= self.spec_render_prefix(y as int + 1));
            }
            y += 1;
        }
        out
    }

    /// The mines as a mathematical set of positions.
    pub closed spec fn mine_set(self) -> Set<Position> {
        self.mines@.to_set()
    }

    /// A board with the given mines placed exactly, and nothing opened or
    /// flagged: the deterministic counterpart of random construction, there
    /// so that a caller can fix a placement in advance. Construction succeeds
    /// exactly when the dimensions are positive and the given positions are
    /// in bounds and pairwise distinct.
    pub fn with_mines(width: usize, height: usize, mines: Vec<Position>) -> (r: Option<
        Minesweeper,
    >)
        ensures
            r is Some <==> (0 < width && 0 < height && mines@.no_duplicates() && forall|
                q: Position,
            |
                #[trigger] mines@.contains(q) ==> (q.0 < width && q.1 < height)),
            r matches Some(b) ==> {
                &&& b.wf()
                &&& b.spec_width() == width as int
                &&& b.spec_height() == height as int
                &&& b.spec_mine_count() == mines@.len()
                &&& forall|q: Position| #[trigger] b.spec_is_mine(q) <==> mines@.contains(q)
                &&& forall|q: Position| !b.spec_is_open(q)
                &&& forall|q: Position| !b.spec_is_flagged(q)
            },
    {
        if width == 0 || height == 0 {
            return None;
        }
        let mut acc: Vec<Position> = Vec::new();
        let mut i: usize = 0;
        while i < mines.len()
            invariant
                i <= mines@.len(),
                acc@ == mines@.subrange(0, i as int),
                acc@.no_duplicates(),
                forall|q: Position| #[trigger] acc@.contains(q) ==> (q.0 < width && q.1 < height),
            decreases mines@.len() - i,
        {
            let p = mines[i];
            if p.0 >= width || p.1 >= height {
                proof {
                    assert(mines@.contains(mines@[i as int]));
                }
                return None;
            }
            if contains_pos(&acc, p) {
                proof {
                    let j = choose|j: int| 0 <= j < acc@.len() && acc@[j] == p;
                    assert(mines@[j] == mines@[i as int]);
                    assert(!mines@.no_duplicates());
                }
                return None;
            }
            proof {
                lemma_push_unique(acc@, p);
                assert(acc@.push(p) =~= mines@.subrange(0, i as int + 1));
            }
            acc.push(p);
            i += 1;
        }
        proof {
            assert(acc@ =~= mines@);
        }
        Some(
            Minesweeper {
                width,
                height,
                open_fields: Vec::new(),
                mines,
                flagged_fields: Vec::new(),
            },
        )
    }

    /// Whether the cell at p has been opened.
    pub fn is_open(&self, p: Position) -> (r: bool)
        ensures
            r == self.spec_is_open(p),
    {
        contains_pos(&self.open_fields, p)
    }

    /// Whether the cell at p is currently flagged.
    pub fn is_flagged(&self, p: Position) -> (r: bool)
        ensures
            r == self.spec_is_flagged(p),
    {
        contains_pos(&self.flagged_fields, p)
    }

    /// Whether the cell at p holds a mine.
    pub fn is_mine(&self, p: Position) -> (r: bool)
        ensures
            r == self.spec_is_mine(p),
    {
        contains_pos(&self.mines, p)
    }

    /// How many mines the board holds.
    pub fn mine_count(&self) -> (r: usize)
        ensures
            r as int == self.spec_mine_count(),
    {
        self.mines.len()
    }
}

/// The digit glyph of a small count, as executable code.
fn digit_glyph(c: u8) -> (r: char)
    requires
        c <= 8,
    ensures
        r == digit_char(c as int),
{
    if c == 0 {
        '0'
    } else if c == 1 {
        '1'
    } else if c == 2 {
        '2'
    } else if c == 3 {
        '3'
    } else if c == 4 {
        '4'
    } else if c == 5 {
        '5'
    } else if c == 6 {
        '6'
    } else if c == 7 {
        '7'
    } else {
        '8'
    }
}

/// Relies on String::push: appends exactly the given character at the end of
/// the string.
#[verifier::external_body]
fn push_char(s: &mut String, c: char)
    ensures
        final(s)@ == old(s)@.push(c),
{
    s.push(c);
}

/// Relates a board before a flag toggle at p to the board after it: open
/// cells, mines, dimensions and adjacency counts are untouched; on an open
/// cell the flags are untouched too, otherwise exactly p's flag is inverted.
pub open spec fn toggles_flag(pre: Minesweeper, post: Minesweeper, p: Position) -> bool {
    &&& post.spec_width() == pre.spec_width()
    &&& post.spec_height() == pre.spec_height()
    &&& post.spec_mine_count() == pre.spec_mine_count()
    &&& forall|q: Position| #[trigger] post.spec_is_mine(q) == pre.spec_is_mine(q)
    &&& forall|q: Position| #[trigger] post.spec_is_open(q) == pre.spec_is_open(q)
    &&& forall|q: Position| #[trigger] post.spec_mines_nearby(q) == pre.spec_mines_nearby(q)
    &&& (pre.spec_is_open(p) ==> forall|q: Position|
        #[trigger] post.spec_is_flagged(q) == pre.spec_is_flagged(q))
    &&& (!pre.spec_is_open(p) ==> forall|q: Position|
        #[trigger] post.spec_is_flagged(q) == (if q == p {
            !pre.spec_is_flagged(p)
        } else {
            pre.spec_is_flagged(q)
        }))
}

/// Holds when every cell open on the first board is still open on the
/// second: the sense in which the set of open cells never shrinks.
pub open spec fn open_monotone(pre: Minesweeper, post: Minesweeper) -> bool {
    forall|q: Position| #[trigger] pre.spec_is_open(q) ==> post.spec_is_open(q)
}

/// Law: toggling the same cell's flag twice restores the flag state of every
/// cell, and the open cells and mines never move at all.
pub proof fn lemma_toggle_twice_restores(
    b0: Minesweeper,
    b1: Minesweeper,
    b2: Minesweeper,
    p: Position,
)
    requires
        toggles_flag(b0, b1, p),
        toggles_flag(b1, b2, p),
    ensures
        forall|q: Position| #[trigger] b2.spec_is_flagged(q) == b0.spec_is_flagged(q),
        forall|q: Position| #[trigger] b2.spec_is_open(q) == b0.spec_is_open(q),
        forall|q: Position| #[trigger] b2.spec_is_mine(q) == b0.spec_is_mine(q),
{
}

/// Law: open-cell monotonicity composes, so across any sequence of
/// operations that each keep the open cells, the set as a whole only grows.
pub proof fn lemma_open_monotone_chain(a: Minesweeper, b: Minesweeper, c: Minesweeper)
    requires
        open_monotone(a, b),
        open_monotone(b, c),
    ensures
        open_monotone(a, c),
{
}

impl Minesweeper {
    /// The set of positions that are in-bounds neighbours of p and hold a
    /// mine.
    pub open spec fn neighbor_mine_set(self, p: Position) -> Set<Position> {
        Set::new(
            |q: Position| self.pos_in_bounds(q) && is_adjacent(p, q) && self.spec_is_mine(q),
        )
    }
}

/// Law: the adjacency count is exactly the cardinality of the set of mined
/// in-bounds neighbours, a set of at most eight positions.
#[verifier::rlimit(100)]
#[verifier::spinoff_prover]
pub proof fn lemma_mines_nearby_is_neighbor_mine_count(b: Minesweeper, p: Position)
    requires
        b.wf(),
        b.pos_in_bounds(p),
    ensures
        b.neighbor_mine_set(p).finite(),
        b.neighbor_mine_set(p).len() == b.spec_mines_nearby(p),
{
    broadcast use vstd::set::group_set_axioms;

    let x = p.0 as int;
    let y = p.1 as int;
    let s0 = Set::<Position>::empty();
    let s1 = if b.mine_indicator(x - 1, y - 1) == 1 {
        s0.insert((((x - 1) as usize), ((y - 1) as usize)))
    } else {
        s0
    };
    let s2 = if b.mine_indicator(x, y - 1) == 1 {
        s1.insert(((x as usize), ((y - 1) as usize)))
    } else {
        s1
    };
    let s3 = if b.mine_indicator(x + 1, y - 1) == 1 {
        s2.insert((((x + 1) as usize), ((y - 1) as usize)))
    } else {
        s2
    };
    let s4 = if b.mine_indicator(x - 1, y) == 1 {
        s3.insert((((x - 1) as usize), (y as usize)))
    } else {
        s3
    };
    let s5 = if b.mine_indicator(x + 1, y) == 1 {
        s4.insert((((x + 1) as usize), (y as usize)))
    } else {
        s4
    };
    let s6 = if b.mine_indicator(x - 1, y + 1) == 1 {
        s5.insert((((x - 1) as usize), ((y + 1) as usize)))
    } else {
        s5
    };
    let s7 = if b.mine_indicator(x, y + 1) == 1 {
        s6.insert(((x as usize), ((y + 1) as usize)))
    } else {
        s6
    };
    let s8 = if b.mine_indicator(x + 1, y + 1) == 1 {
        s7.insert((((x + 1) as usize), ((y + 1) as usize)))
    } else {
        s7
    };
    assert(s8.len() == b.spec_mines_nearby(p));
    assert(s8 =~= b.neighbor_mine_set(p));
}

/// Law: an adjacency count always lies between zero and eight, so the count
/// carried by a "no mine" result fits its eight-bit field exactly.
pub proof fn lemma_mines_nearby_range(b: Minesweeper, p: Position)
    ensures
        0 <= b.spec_mines_nearby(p) <= 8,
{
}

/// Law: the mines of a well-formed board, taken as a set, are finite and
/// number exactly the board's mine count; so a fresh board carries as many
/// distinct mines as were asked for.
pub proof fn lemma_mine_count_is_set_size(b: Minesweeper)
    requires
        b.wf(),
    ensures
        b.mine_set().finite(),
        b.mine_set().len() == b.spec_mine_count(),
        forall|q: Position| #[trigger] b.mine_set().contains(q) == b.spec_is_mine(q),
{
    broadcast use vstd::seq_lib::seq_to_set_is_finite;

    b.mines@.unique_seq_to_set();
}

/// Law: on a well-formed board a flagged cell is never an open cell,
/// whatever operations led to the state.
pub proof fn lemma_flagged_never_open(b: Minesweeper, p: Position)
    requires
        b.wf(),
        b.spec_is_flagged(p),
    ensures
        !b.spec_is_open(p),
{
}

/// Law: the adjacency count reads the mine placement and the dimensions
/// alone; two boards that agree on those agree on every count, whatever
/// their open and flag state.
pub proof fn lemma_mines_nearby_reads_only_mines(a: Minesweeper, b: Minesweeper, p: Position)
    requires
        a.spec_width() == b.spec_width(),
        a.spec_height() == b.spec_height(),
        forall|q: Position| #[trigger] a.spec_is_mine(q) == b.spec_is_mine(q),
    ensures
        a.spec_mines_nearby(p) == b.spec_mines_nearby(p),
{
}

/// Pushing a fresh element onto a duplicate-free sequence keeps it
/// duplicate-free and adds exactly that element.
proof fn lemma_push_unique(s: Seq<Position>, e: Position)
    requires
        s.no_duplicates(),
        !s.contains(e),
    ensures
        s.push(e).no_duplicates(),
        forall|q: Position| #[trigger] s.push(e).contains(q) <==> (s.contains(q) || q == e),
{
    broadcast use vstd::seq_lib::lemma_seq_contains_after_push;

    assert forall|a: int, b: int| 0 <= a < b < s.push(e).len() implies s.push(e)[a] != s.push(e)[b]
        by {
        if b < s.len() {
            assert(s[a] != s[b]);
        } else {
            assert(s.push(e)[b] == e);
            assert(s.push(e)[a] == s[a]);
        }
    }
}

/// Removing the element at index i from a duplicate-free sequence keeps it
/// duplicate-free and takes away exactly that element.
proof fn lemma_remove_unique(s: Seq<Position>, i: int)
    requires
        s.no_duplicates(),
        0 <= i < s.len(),
    ensures
        s.remove(i).no_duplicates(),
        s.remove(i).len() == s.len() - 1,
        forall|q: Position| #[trigger] s.remove(i).contains(q) <==> (s.contains(q) && q != s[i]),
{
    let t = s.remove(i);
    assert forall|q: Position| #[trigger] t.contains(q) implies (s.contains(q) && q != s[i]) by {
        let k = choose|k: int| 0 <= k < t.len() && t[k] == q;
        if k < i {
            assert(t[k] == s[k]);
            assert(s[k] != s[i]);
        } else {
            assert(t[k] == s[k + 1]);
            assert(s[k + 1] != s[i]);
        }
    }
    assert forall|q: Position| (s.contains(q) && q != s[i]) implies #[trigger] t.contains(q) by {
        let k = choose|k: int| 0 <= k < s.len() && s[k] == q;
        if k < i {
            assert(t[k] == s[k]);
        } else {
            assert(t[k - 1] == s[k]);
        }
    }
    assert forall|a: int, b: int| 0 <= a < b < t.len() implies t[a] != t[b] by {
        let sa: int = if a < i { a } else { a + 1 };
        let sb: int = if b < i { b } else { b + 1 };
        assert(t[a] == s[sa]);
        assert(t[b] == s[sb]);
    }
}

/// Linear membership test on a duplicate-free position list.
fn contains_pos(v: &Vec<Position>, p: Position) -> (r: bool)
    ensures
        r == v@.contains(p),
{
    let mut i: usize = 0;
    while i < v.len()
        invariant
            i <= v@.len(),
            forall|j: int| 0 <= j < i ==> v@[j] != p,
        decreases v@.len() - i,
    {
        if v[i].0 == p.0 && v[i].1 == p.1 {
            assert(v@[i as int] == p);
            return true;
        }
        i += 1;
    }
    assert(!v@.contains(p));
    false
}

/// Takes one position out of a duplicate-free position list that holds it.
fn remove_pos(v: &mut Vec<Position>, p: Position)
    requires
        old(v)@.no_duplicates(),
        old(v)@.contains(p),
    ensures
        final(v)@.no_duplicates(),
        final(v)@.len() == old(v)@.len() - 1,
        forall|q: Position| #[trigger] final(v)@.contains(q) <==> (old(v)@.contains(q) && q != p),
{
    let mut i: usize = 0;
    while i < v.len()
        invariant
            i <= v@.len(),
            v@ == old(v)@,
            v@.no_duplicates(),
            v@.contains(p),
            forall|j: int| 0 <= j < i ==> v@[j] != p,
        decreases v@.len() - i,
    {
        if v[i].0 == p.0 && v[i].1 == p.1 {
            proof {
                assert(v@[i as int] == p);
                lemma_remove_unique(v@, i as int);
            }
            v.remove(i);
            return;
        }
        i += 1;
    }
    // The list holds p, so the loop always finds it: this point is dead.
    assert(!v@.contains(p));
    assert(false);
}

} // verus!

