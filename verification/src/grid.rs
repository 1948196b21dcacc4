//! Character grid with a doubled row buffer for smooth scrolling.
//!
//! The grid stores twice its visible height: rows that scroll out of the
//! visible window survive in the second half of the buffer, so the drawing
//! step can still show them while a scroll animation is in flight.
//! Logical row `i` lives in physical slot `(top_index + i) mod (2*height)`;
//! a full-width vertical scroll only moves `top_index`.
//!
//! `scroll_offset` is the fixed-point (thousandths of a row) offset of the
//! animated view relative to the authoritative top row: negative after
//! scrolling down, positive after scrolling up, and drifting back to zero
//! as the animation catches up.

use crate::fixed::{clamp_i64, floor_units, spec_clamp, spec_floor_units, SUBUNIT};
use crate::style::{clone_optional_style, Style};
use std::sync::Arc;
use vstd::arithmetic::div_mod::{
    lemma_add_mod_noop_right, lemma_mod_add_multiples_vanish, lemma_mod_bound, lemma_small_mod,
    lemma_sub_mod_noop,
};
use vstd::prelude::*;

verus! {

/// First source index of a region shifted by `delta`: the part of
/// `[lo, hi)` whose shifted image stays inside the region starts here.
pub open spec fn shift_src_lo(lo: int, delta: int) -> int {
    if delta > 0 {
        lo + delta
    } else {
        lo
    }
}

/// One past the last source index of a region shifted by `delta`.
pub open spec fn shift_src_hi(hi: int, delta: int) -> int {
    if delta < 0 {
        hi + delta
    } else {
        hi
    }
}

/// One cell: the glyph text plus an optional shared style.
pub type GridCell = (String, Option<Arc<Style>>);

/// The blank cell used to initialize and clear the grid.
pub open spec fn is_default_cell(c: GridCell) -> bool {
    c.0@ == seq![' '] && c.1 is None
}

pub fn default_cell() -> (r: GridCell)
    ensures
        is_default_cell(r),
{
    let text = " ".to_owned();
    proof {
        reveal_strlit(" ");
        assert(text@ =~= seq![' ']);
    }
    (text, None)
}

/// An exact copy of a cell: the text and the shared style handle.
pub fn clone_cell(c: &GridCell) -> (r: GridCell)
    ensures
        r == *c,
{
    (c.0.clone(), clone_optional_style(&c.1))
}

/// One storage row of the grid.
pub struct GridLine {
    pub characters: Vec<GridCell>,
}

impl GridLine {
    /// A row of `length` blank cells.
    pub fn new(length: usize) -> (r: GridLine)
        ensures
            r.characters@.len() == length,
            forall|i: int| 0 <= i < length ==> is_default_cell(#[trigger] r.characters@[i]),
    {
        let mut characters: Vec<GridCell> = Vec::new();
        let mut i: usize = 0;
        while i < length
            invariant
                i <= length,
                characters@.len() == i,
                forall|j: int| 0 <= j < i ==> is_default_cell(#[trigger] characters@[j]),
            decreases length - i,
        {
            characters.push(default_cell());
            i += 1;
        }
        GridLine { characters }
    }
}

/// The doubled-height character grid of one editor window.
pub struct CharacterGrid {
    pub width: usize,
    pub height: usize,
    /// Fixed-point rows (thousandths): animated view offset relative to
    /// the authoritative top row.
    pub scroll_offset: i64,
    pub lines: Vec<GridLine>,
    /// Physical slot of logical row zero; grows or shrinks by the scrolled
    /// row count on every full-width vertical scroll.
    pub top_index: isize,
}

impl CharacterGrid {
    /// Well-formedness: doubled buffer, rectangular rows, bounded offsets.
    pub open spec fn wf(&self) -> bool {
        &&& self.lines@.len() == 2 * self.height
        &&& forall|i: int|
            0 <= i < self.lines@.len() ==> (#[trigger] self.lines@[i]).characters@.len()
                == self.width
        &&& 1 <= self.height
        &&& 1 <= self.width
        &&& 2 * (self.height as int) * (SUBUNIT as int) <= i64::MAX
        &&& -((self.height as int) * (SUBUNIT as int)) <= self.scroll_offset <= (
        self.height as int) * (SUBUNIT as int)
        &&& -(isize::MAX / 2) <= self.top_index <= isize::MAX / 2
    }

    /// Physical slot of logical row `i`.
    pub open spec fn spec_row_index(&self, i: int) -> int {
        (self.top_index + i) % (self.lines@.len() as int)
    }

    /// The cells of logical row `i`.
    pub open spec fn spec_row(&self, i: int) -> Seq<GridCell> {
        self.lines@[self.spec_row_index(i)].characters@
    }

    /// The cell at column `x` of logical row `y`.
    pub open spec fn spec_cell(&self, x: int, y: int) -> GridCell {
        self.spec_row(y)[x]
    }

    pub fn new(size: (usize, usize)) -> (r: CharacterGrid)
        requires
            1 <= size.0,
            1 <= size.1,
            2 * size.1 <= usize::MAX,
            2 * (size.1 as int) * (SUBUNIT as int) <= i64::MAX,
        ensures
            r.wf(),
            r.width == size.0,
            r.height == size.1,
            r.scroll_offset == 0,
            r.top_index == 0,
            forall|x: int, y: int|
                0 <= x < size.0 && 0 <= y < 2 * size.1 ==> is_default_cell(r.spec_cell(x, y)),
    {
        let (width, height) = size;
        let r = CharacterGrid {
            width,
            height,
            scroll_offset: 0,
            lines: Self::create_lines(width, height),
            top_index: 0,
        };
        proof {
            assert forall|x: int, y: int|
                0 <= x < size.0 && 0 <= y < 2 * size.1 implies is_default_cell(
                r.spec_cell(x, y),
            ) by {
                lemma_small_mod(y as nat, (2 * size.1) as nat);
            }
        }
        r
    }

    /// A fresh doubled buffer of blank rows.
    fn create_lines(width: usize, height: usize) -> (r: Vec<GridLine>)
        requires
            2 * height <= usize::MAX,
        ensures
            r@.len() == 2 * height,
            forall|i: int|
                0 <= i < 2 * height ==> (#[trigger] r@[i]).characters@.len() == width,
            forall|i: int, j: int|
                0 <= i < 2 * height && 0 <= j < width ==> is_default_cell(
                    #[trigger] r@[i].characters@[j],
                ),
    {
        let n = 2 * height;
        let mut lines: Vec<GridLine> = Vec::new();
        let mut i: usize = 0;
        while i < n
            invariant
                i <= n,
                lines@.len() == i,
                forall|k: int| 0 <= k < i ==> (#[trigger] lines@[k]).characters@.len() == width,
                forall|k: int, j: int|
                    0 <= k < i && 0 <= j < width ==> is_default_cell(
                        #[trigger] lines@[k].characters@[j],
                    ),
            decreases n - i,
        {
            lines.push(GridLine::new(width));
            i += 1;
        }
        lines
    }

    /// Physical slot of logical row `index`; any index wraps modulo the
    /// doubled height.
    fn row_array_index(&self, index: i64) -> (r: usize)
        requires
            self.wf(),
            -0x2000_0000_0000_0000 <= index <= 0x2000_0000_0000_0000,
        ensures
            r < self.lines@.len(),
            r as int == self.spec_row_index(index as int),
    {
        let rows = self.lines.len() as i64;
        let r = ((self.top_index as i64) + index).checked_rem_euclid(rows).unwrap() as usize;
        proof {
            lemma_mod_bound(self.top_index + index, self.lines@.len() as int);
        }
        r
    }

    /// Reduce any row index into the doubled buffer; the wrapped index
    /// addresses the same physical slot, also under any further shift.
    fn wrap_row(&self, y: usize) -> (r: usize)
        requires
            self.wf(),
        ensures
            r < self.lines@.len(),
            self.spec_row_index(r as int) == self.spec_row_index(y as int),
            forall|f: int|
                #![trigger self.spec_row_index(y + f)]
                self.spec_row_index(r + f) == self.spec_row_index(y + f),
    {
        let n = self.lines.len();
        let r = y % n;
        proof {
            let ni = n as int;
            let top = self.top_index as int;
            lemma_add_mod_noop_right(top, y as int, ni);
            assert forall|f: int| self.spec_row_index(r + f) == #[trigger] self.spec_row_index(
                y + f,
            ) by {
                lemma_add_mod_noop_right(top + f, y as int, ni);
            }
        }
        r
    }

    /// Shared access to the cell at `(x, y)`; `None` when `x` is outside
    /// the grid width. Any row index is accepted and wraps modulo the
    /// doubled buffer.
    pub fn get_cell(&self, x: usize, y: usize) -> (r: Option<&GridCell>)
        requires
            self.wf(),
        ensures
            r is Some <==> x < self.width,
            r matches Some(c) ==> *c == self.spec_cell(x as int, y as int),
    {
        let yw = self.wrap_row(y);
        let index = self.row_array_index(yw as i64);
        if x < self.width {
            Some(&self.lines[index].characters[x])
        } else {
            None
        }
    }

    /// Overwrite the cell at `(x, y)`.
    pub fn set_cell(&mut self, x: usize, y: usize, cell: GridCell)
        requires
            old(self).wf(),
            x < old(self).width,
            y < 2 * old(self).height,
        ensures
            final(self).wf(),
            final(self).width == old(self).width,
            final(self).height == old(self).height,
            final(self).scroll_offset == old(self).scroll_offset,
            final(self).top_index == old(self).top_index,
            final(self).spec_cell(x as int, y as int) == cell,
            forall|a: int, b: int|
                0 <= a < old(self).width && 0 <= b < 2 * old(self).height && !(a == x && old(self).spec_row_index(b) == old(self).spec_row_index(y as int)) ==> final(self).spec_cell(a, b) == old(self).spec_cell(a, b),
    {
        let index = self.row_array_index(y as i64);
        self.lines[index].characters[x] = cell;
        proof {
            assert forall|b: int| 0 <= b < 2 * self.height implies 0 <= #[trigger] self.spec_row_index(
                b,
            ) < self.lines@.len() by {
                lemma_mod_bound(self.top_index + b, self.lines@.len() as int);
            }
        }
    }

    /// Exclusive access to the cell at `(x, y)`; `None` when `x` is
    /// outside the grid width, in which case nothing changes. Any row
    /// index is accepted and wraps modulo the doubled buffer.
    pub fn get_cell_mut(&mut self, x: usize, y: usize) -> (r: Option<&mut GridCell>)
        requires
            old(self).wf(),
        ensures
            r is Some <==> x < old(self).width,
            r is None ==> *final(self) == *old(self),
            r matches Some(c) ==> {
                &&& *c == old(self).spec_cell(x as int, y as int)
                &&& final(self).wf()
                &&& final(self).width == old(self).width
                &&& final(self).height == old(self).height
                &&& final(self).scroll_offset == old(self).scroll_offset
                &&& final(self).top_index == old(self).top_index
                &&& final(self).spec_cell(x as int, y as int) == *final(c)
                &&& forall|a: int, b: int|
                    0 <= a < old(self).width && 0 <= b < 2 * old(self).height && !(a == x && old(self).spec_row_index(b) == old(self).spec_row_index(y as int)) ==> final(self).spec_cell(a, b) == old(self).spec_cell(a, b)
            },
    {
        let yw = self.wrap_row(y);
        let index = self.row_array_index(yw as i64);
        if x < self.width {
            proof {
                assert forall|b: int| 0 <= b < 2 * self.height implies 0 <= #[trigger] self.spec_row_index(
                    b,
                ) < self.lines@.len() by {
                    lemma_mod_bound(self.top_index + b, self.lines@.len() as int);
                }
            }
            Some(&mut self.lines[index].characters[x])
        } else {
            None
        }
    }

    /// Set every cell of the doubled buffer to a copy of `value`.
    pub fn set_all_characters(&mut self, value: GridCell)
        requires
            old(self).wf(),
        ensures
            final(self).wf(),
            final(self).width == old(self).width,
            final(self).height == old(self).height,
            final(self).scroll_offset == old(self).scroll_offset,
            final(self).top_index == old(self).top_index,
            forall|a: int, b: int|
                0 <= a < old(self).width && 0 <= b < 2 * old(self).height ==> final(self).spec_cell(a, b) == value,
            forall|k: int, j: int|
                0 <= k < final(self).lines@.len() && 0 <= j < old(self).width ==> final(self).lines@[k].characters@[j] == value,
    {
        let n = self.lines.len();
        let mut i: usize = 0;
        while i < n
            invariant
                i <= n,
                self.wf(),
                n == self.lines@.len(),
                self.width == old(self).width,
                self.height == old(self).height,
                self.scroll_offset == old(self).scroll_offset,
                self.top_index == old(self).top_index,
                forall|k: int, j: int|
                    0 <= k < i && 0 <= j < self.width ==> #[trigger] self.lines@[k].characters@[j]
                        == value,
            decreases n - i,
        {
            let width = self.width;
            let mut j: usize = 0;
            while j < width
                invariant
                    j <= width,
                    i < n,
                    self.wf(),
                    n == self.lines@.len(),
                    width == self.width,
                    self.width == old(self).width,
                    self.height == old(self).height,
                    self.scroll_offset == old(self).scroll_offset,
                    self.top_index == old(self).top_index,
                    forall|k: int, jj: int|
                        0 <= k < i && 0 <= jj < self.width ==> #[trigger] self.lines@[k].characters@[jj]
                            == value,
                    forall|jj: int|
                        0 <= jj < j ==> #[trigger] self.lines@[i as int].characters@[jj] == value,
                decreases width - j,
            {
                let cell = clone_cell(&value);
                self.lines[i].characters[j] = cell;
                j += 1;
            }
            i += 1;
        }
        proof {
            assert forall|a: int, b: int|
                0 <= a < self.width && 0 <= b < 2 * self.height implies self.spec_cell(a, b)
                == value by {
                lemma_mod_bound(self.top_index + b, self.lines@.len() as int);
            }
        }
    }

    /// The cells of visible row `row_index`, or `None` past the grid
    /// height.
    pub fn row(&self, row_index: usize) -> (r: Option<&Vec<GridCell>>)
        requires
            self.wf(),
        ensures
            r is Some <==> row_index < self.height,
            r matches Some(cells) ==> cells@ == self.spec_row(row_index as int),
    {
        if row_index < self.height {
            let index = self.row_array_index(row_index as i64);
            Some(&self.lines[index].characters)
        } else {
            None
        }
    }

    /// The cells shown at visible row `row_index` under the current
    /// animated scroll offset: the row whose logical index is
    /// `row_index + floor(scroll_offset)`.
    pub fn scrolled_row(&self, row_index: usize) -> (r: &Vec<GridCell>)
        requires
            self.wf(),
        ensures
            r@ == self.spec_row(row_index + spec_floor_units(self.scroll_offset as int)),
    {
        let yw = self.wrap_row(row_index);
        let scroll_index = yw as i64 + floor_units(self.scroll_offset);
        let index = self.row_array_index(scroll_index);
        &self.lines[index].characters
    }

    /// Reset every cell to blank and forget all scroll state.
    pub fn clear(&mut self)
        requires
            old(self).wf(),
        ensures
            final(self).wf(),
            final(self).width == old(self).width,
            final(self).height == old(self).height,
            final(self).scroll_offset == 0,
            final(self).top_index == 0,
            forall|a: int, b: int|
                0 <= a < old(self).width && 0 <= b < 2 * old(self).height ==> is_default_cell(
                    final(self).spec_cell(a, b),
                ),
    {
        self.set_all_characters(default_cell());
        self.scroll_offset = 0;
        self.top_index = 0;
        proof {
            let len = self.lines@.len() as int;
            assert forall|a: int, b: int|
                0 <= a < old(self).width && 0 <= b < 2 * old(self).height implies is_default_cell(
                self.spec_cell(a, b),
            ) by {
                lemma_small_mod(b as nat, len as nat);
            }
        }
    }

    /// Replace the grid with one of the new size, keeping the overlapping
    /// rectangle of visible cells and blanking everything else; all scroll
    /// state is reset.
    pub fn resize(&mut self, size: (usize, usize))
        requires
            old(self).wf(),
            1 <= size.0,
            1 <= size.1,
            2 * size.1 <= usize::MAX,
            2 * (size.1 as int) * (SUBUNIT as int) <= i64::MAX,
        ensures
            final(self).wf(),
            final(self).width == size.0,
            final(self).height == size.1,
            final(self).scroll_offset == 0,
            final(self).top_index == 0,
            forall|x: int, y: int|
                0 <= x < size.0 && 0 <= y < size.1 && x < old(self).width && y < old(self).height ==> final(self).spec_cell(x, y) == old(self).spec_cell(x, y),
            forall|x: int, y: int|
                0 <= x < size.0 && 0 <= y < 2 * size.1 && !(x < old(self).width && y < old(self).height && y < size.1) ==> is_default_cell(final(self).spec_cell(x, y)),
    {
        let (width, height) = size;
        let mut new_lines = Self::create_lines(width, height);
        let min_w = if self.width < width {
            self.width
        } else {
            width
        };
        let min_h = if self.height < height {
            self.height
        } else {
            height
        };
        let mut y: usize = 0;
        while y < min_h
            invariant
                y <= min_h,
                min_w <= self.width,
                min_w <= width,
                min_h <= self.height,
                min_h <= height,
                min_w == if self.width < width { self.width as int } else { width as int },
                min_h == if self.height < height { self.height as int } else { height as int },
                self == old(self),
                self.wf(),
                new_lines@.len() == 2 * height,
                forall|i: int|
                    0 <= i < 2 * height ==> (#[trigger] new_lines@[i]).characters@.len() == width,
                forall|i: int, j: int|
                    0 <= i < y && 0 <= j < min_w ==> #[trigger] new_lines@[i].characters@[j]
                        == self.spec_cell(j, i),
                forall|i: int, j: int|
                    0 <= i < 2 * height && 0 <= j < width && !(i < y && j < min_w)
                        ==> is_default_cell(#[trigger] new_lines@[i].characters@[j]),
            decreases min_h - y,
        {
            let mut x: usize = 0;
            while x < min_w
                invariant
                    x <= min_w,
                    y < min_h,
                    min_w <= self.width,
                    min_w <= width,
                    min_h <= self.height,
                    min_h <= height,
                    self == old(self),
                    self.wf(),
                    new_lines@.len() == 2 * height,
                    forall|i: int|
                        0 <= i < 2 * height ==> (#[trigger] new_lines@[i]).characters@.len()
                            == width,
                    forall|i: int, j: int|
                        0 <= i < y && 0 <= j < min_w ==> #[trigger] new_lines@[i].characters@[j]
                            == self.spec_cell(j, i),
                    forall|j: int|
                        0 <= j < x ==> #[trigger] new_lines@[y as int].characters@[j]
                            == self.spec_cell(j, y as int),
                    forall|i: int, j: int|
                        0 <= i < 2 * height && 0 <= j < width && !(i < y && j < min_w) && !(i == y
                            && j < x) ==> is_default_cell(#[trigger] new_lines@[i].characters@[j]),
                decreases min_w - x,
            {
                let cell = match self.get_cell(x, y) {
                    Some(existing) => clone_cell(existing),
                    None => default_cell(),
                };
                new_lines[y].characters[x] = cell;
                x += 1;
            }
            y += 1;
        }
        self.width = width;
        self.height = height;
        self.lines = new_lines;
        self.scroll_offset = 0;
        self.top_index = 0;
        proof {
            assert forall|yy: int| 0 <= yy < 2 * size.1 implies #[trigger] self.spec_row_index(
                yy,
            ) == yy by {
                lemma_small_mod(yy as nat, (2 * size.1) as nat);
            }
        }
    }

    /// Is `(x, y)` a destination cell of a region scroll: its source
    /// `(x + cols, y + rows)` lies in the source part of the region.
    pub open spec fn region_dest(
        y: int,
        x: int,
        top: int,
        bottom: int,
        left: int,
        right: int,
        rows: int,
        cols: int,
    ) -> bool {
        &&& shift_src_lo(top, rows) <= y + rows < shift_src_hi(bottom, rows)
        &&& shift_src_lo(left, cols) <= x + cols < shift_src_hi(right, cols)
    }

    /// Distinct logical rows of the doubled buffer live in distinct
    /// physical slots.
    proof fn lemma_row_index_injective(&self, b1: int, b2: int)
        requires
            self.wf(),
            0 <= b1 < 2 * self.height,
            0 <= b2 < 2 * self.height,
            self.spec_row_index(b1) == self.spec_row_index(b2),
        ensures
            b1 == b2,
    {
        let len = self.lines@.len() as int;
        let top = self.top_index as int;
        lemma_sub_mod_noop(top + b1, top + b2, len);
        lemma_small_mod(0nat, len as nat);
        if b1 >= b2 {
            lemma_small_mod((b1 - b2) as nat, len as nat);
        } else {
            lemma_mod_add_multiples_vanish(b1 - b2, len);
            lemma_small_mod((len + b1 - b2) as nat, len as nat);
        }
    }

    /// Copy the `[left, right)` stretch of row `src_y`, shifted left by
    /// `cols`, into row `dest_y`, reading each source cell before any
    /// write can touch it. Afterwards the columns of `dest_y` whose
    /// source lies inside `[left, right)` hold the old source cells;
    /// everything else is unchanged.
    fn copy_region_row(
        &mut self,
        src_y: usize,
        dest_y: usize,
        left: usize,
        right: usize,
        cols: isize,
    )
        requires
            old(self).wf(),
            src_y < old(self).height,
            dest_y < old(self).height,
            left <= right <= old(self).width,
            cols > isize::MIN,
        ensures
            final(self).wf(),
            final(self).width == old(self).width,
            final(self).height == old(self).height,
            final(self).scroll_offset == old(self).scroll_offset,
            final(self).top_index == old(self).top_index,
            forall|a: int, b: int|
                0 <= a < old(self).width && 0 <= b < 2 * old(self).height ==> final(self).spec_cell(a, b) == (if b == dest_y && shift_src_lo(left as int, cols as int) <= a
                    + cols < shift_src_hi(right as int, cols as int) {
                    old(self).spec_cell(a + cols, src_y as int)
                } else {
                    old(self).spec_cell(a, b)
                }),
    {
        let ghost g0 = *old(self);
        if cols >= 0 {
            let c = cols as usize;
            if c < right - left {
                let mut x: usize = left + c;
                while x < right
                    invariant
                        left + c <= x <= right,
                        c == cols as int,
                        cols >= 0,
                        c < right - left,
                        src_y < g0.height,
                        dest_y < g0.height,
                        left <= right <= g0.width,
                        g0.wf(),
                        self.wf(),
                        self.width == g0.width,
                        self.height == g0.height,
                        self.scroll_offset == g0.scroll_offset,
                        self.top_index == g0.top_index,
                        forall|a: int, b: int|
                            0 <= a < g0.width && 0 <= b < 2 * g0.height ==> #[trigger] self.spec_cell(
                                a,
                                b,
                            ) == (if b == dest_y && left as int + c <= a + c < x {
                                g0.spec_cell(a + c, src_y as int)
                            } else {
                                g0.spec_cell(a, b)
                            }),
                    decreases right - x,
                {
                    proof {
                        if src_y != dest_y {
                            if self.spec_row_index(src_y as int) == self.spec_row_index(
                                dest_y as int,
                            ) {
                                self.lemma_row_index_injective(src_y as int, dest_y as int);
                            }
                        }
                    }
                    let cell = clone_cell(self.get_cell(x, src_y).unwrap());
                    let dx = x - c;
                    self.set_cell(dx, dest_y, cell);
                    proof {
                        assert forall|a: int, b: int|
                            0 <= a < g0.width && 0 <= b < 2 * g0.height implies #[trigger] self.spec_cell(
                            a,
                            b,
                        ) == (if b == dest_y && left as int + c <= a + c < x + 1 {
                            g0.spec_cell(a + c, src_y as int)
                        } else {
                            g0.spec_cell(a, b)
                        }) by {
                            if self.spec_row_index(b) == self.spec_row_index(dest_y as int) {
                                self.lemma_row_index_injective(b, dest_y as int);
                            }
                        }
                    }
                    x += 1;
                }
            }
        } else {
            let c = (-cols) as usize;
            if c < right - left {
                let mut x: usize = right - c;
                while x > left
                    invariant
                        left <= x <= right - c,
                        c == -(cols as int),
                        cols < 0,
                        c < right - left,
                        src_y < g0.height,
                        dest_y < g0.height,
                        left <= right <= g0.width,
                        g0.wf(),
                        self.wf(),
                        self.width == g0.width,
                        self.height == g0.height,
                        self.scroll_offset == g0.scroll_offset,
                        self.top_index == g0.top_index,
                        forall|a: int, b: int|
                            0 <= a < g0.width && 0 <= b < 2 * g0.height ==> #[trigger] self.spec_cell(
                                a,
                                b,
                            ) == (if b == dest_y && x <= a - c && a - c < right as int - c {
                                g0.spec_cell(a - c, src_y as int)
                            } else {
                                g0.spec_cell(a, b)
                            }),
                    decreases x,
                {
                    x -= 1;
                    proof {
                        if src_y != dest_y {
                            if self.spec_row_index(src_y as int) == self.spec_row_index(
                                dest_y as int,
                            ) {
                                self.lemma_row_index_injective(src_y as int, dest_y as int);
                            }
                        }
                    }
                    let cell = clone_cell(self.get_cell(x, src_y).unwrap());
                    let dx = x + c;
                    self.set_cell(dx, dest_y, cell);
                    proof {
                        assert forall|a: int, b: int|
                            0 <= a < g0.width && 0 <= b < 2 * g0.height implies #[trigger] self.spec_cell(
                            a,
                            b,
                        ) == (if b == dest_y && x <= a - c && a - c < right as int - c {
                            g0.spec_cell(a - c, src_y as int)
                        } else {
                            g0.spec_cell(a, b)
                        }) by {
                            if self.spec_row_index(b) == self.spec_row_index(dest_y as int) {
                                self.lemma_row_index_injective(b, dest_y as int);
                            }
                        }
                    }
                }
            }
        }
    }

    /// Apply a protocol scroll to the region `[top, bottom) x [left,
    /// right)`. A full-width, purely vertical scroll is optimized: it only
    /// moves `top_index`, keeps the scrolled-out rows in the doubled
    /// buffer, and advances the animated `scroll_offset` (clamping it, or
    /// resetting it when the scroll jumps further than the buffer can
    /// show). Any other region scroll copies cells inside the region and
    /// resets `scroll_offset`.
    pub fn scroll_region(
        &mut self,
        top: usize,
        bottom: usize,
        left: usize,
        right: usize,
        rows: isize,
        cols: isize,
    )
        requires
            old(self).wf(),
            top <= bottom <= old(self).height,
            left <= right <= old(self).width,
            rows > isize::MIN,
            cols > isize::MIN,
            -(isize::MAX / 2) <= old(self).top_index + rows <= isize::MAX / 2,
        ensures
            final(self).wf(),
            final(self).width == old(self).width,
            final(self).height == old(self).height,
            spec_is_full_scroll(*old(self), top as int, bottom as int, left as int, right as int, cols as int) ==> {
                &&& final(self).lines == old(self).lines
                &&& final(self).top_index == old(self).top_index + rows
                &&& final(self).scroll_offset == (if abs_int(rows as int) > old(self).height as int {
                    0
                } else {
                    spec_clamp(
                        old(self).scroll_offset - rows * SUBUNIT,
                        -((old(self).height as int) * (SUBUNIT as int)),
                        (old(self).height as int) * (SUBUNIT as int),
                    )
                })
                &&& forall|i: int| final(self).spec_row_index(i) == old(self).spec_row_index(i + rows)
            },
            !spec_is_full_scroll(*old(self), top as int, bottom as int, left as int, right as int, cols as int) ==> {
                &&& final(self).top_index == old(self).top_index
                &&& final(self).scroll_offset == 0
                &&& forall|x: int, y: int|
                    0 <= x < old(self).width && 0 <= y < 2 * old(self).height ==> final(self).spec_cell(x, y)
                        == (if Self::region_dest(y, x, top as int, bottom as int, left as int, right as int, rows as int, cols as int) {
                        old(self).spec_cell(x + cols, y + rows)
                    } else {
                        old(self).spec_cell(x, y)
                    })
            },
    {
        if top == 0 && bottom == self.height && left == 0 && right == self.width && cols == 0 {
            // Pure vertical scrolling: the scrolled-out rows survive in
            // the doubled buffer for the smooth-scrolling animation.
            self.top_index = self.top_index + rows;
            let minmax = self.height as i64;
            let abs_rows: i64 = if rows >= 0 {
                rows as i64
            } else {
                -(rows as i64)
            };
            if abs_rows > minmax {
                // Scrolled too far for the buffer: the offset has to reset.
                self.scroll_offset = 0;
            } else {
                let adjusted = self.scroll_offset - (rows as i64) * SUBUNIT;
                self.scroll_offset = clamp_i64(adjusted, -(minmax * SUBUNIT), minmax * SUBUNIT);
            }
        } else {
            let ghost g0 = *old(self);
            self.scroll_offset = 0;
            if rows >= 0 {
                let r = rows as usize;
                if r < bottom - top {
                    let mut y: usize = top + r;
                    while y < bottom
                        invariant
                            top + r <= y <= bottom,
                            r == rows as int,
                            rows >= 0,
                            r < bottom - top,
                            top <= bottom <= g0.height,
                            left <= right <= g0.width,
                            cols > isize::MIN,
                            g0.wf(),
                            self.wf(),
                            self.width == g0.width,
                            self.height == g0.height,
                            self.scroll_offset == 0,
                            self.top_index == g0.top_index,
                            forall|a: int, b: int|
                                0 <= a < g0.width && 0 <= b < 2 * g0.height ==> #[trigger] self.spec_cell(a, b)
                                    == (if top as int <= b && b + r < y && shift_src_lo(left as int, cols as int) <= a + cols < shift_src_hi(right as int, cols as int) {
                                    g0.spec_cell(a + cols, b + r)
                                } else {
                                    g0.spec_cell(a, b)
                                }),
                        decreases bottom - y,
                    {
                        self.copy_region_row(y, y - r, left, right, cols);
                        y += 1;
                    }
                }
            } else {
                let r = (-rows) as usize;
                if r < bottom - top {
                    let mut y: usize = bottom - r;
                    while y > top
                        invariant
                            top <= y <= bottom - r,
                            r == -(rows as int),
                            rows < 0,
                            r < bottom - top,
                            top <= bottom <= g0.height,
                            left <= right <= g0.width,
                            cols > isize::MIN,
                            g0.wf(),
                            self.wf(),
                            self.width == g0.width,
                            self.height == g0.height,
                            self.scroll_offset == 0,
                            self.top_index == g0.top_index,
                            forall|a: int, b: int|
                                0 <= a < g0.width && 0 <= b < 2 * g0.height ==> #[trigger] self.spec_cell(a, b)
                                    == (if y as int + r <= b && b < bottom && shift_src_lo(left as int, cols as int) <= a + cols < shift_src_hi(right as int, cols as int) {
                                    g0.spec_cell(a + cols, b - r)
                                } else {
                                    g0.spec_cell(a, b)
                                }),
                        decreases y,
                    {
                        y -= 1;
                        self.copy_region_row(y, y + r, left, right, cols);
                    }
                }
            }
        }
    }
}

/// Magnitude of an integer.
pub open spec fn abs_int(x: int) -> int {
    if x >= 0 {
        x
    } else {
        -x
    }
}

/// A scroll command that covers the full grid width and height and moves
/// no columns: the optimized ring rotation applies.
pub open spec fn spec_is_full_scroll(
    g: CharacterGrid,
    top: int,
    bottom: int,
    left: int,
    right: int,
    cols: int,
) -> bool {
    top == 0 && bottom == g.height && left == 0 && right == g.width && cols == 0
}

} // verus!
