//! A grid of values, row by row.

use vstd::prelude::*;
use crate::vec2::Vec2;
use crate::vec2::Vec2u;

verus! {

/// `width * height` values; the value at `(x, y)` is `values[y * width + x]`.
#[derive(Debug)]
pub struct Matrix<T> {
    pub width: usize,
    pub height: usize,
    pub values: Vec<T>,
}

/// The place of `(x, y)` in the values of a grid of the given width.
pub open spec fn cell_index(width: int, x: int, y: int) -> int {
    y * width + x
}

/// A cell inside the grid has a place among its values.
pub proof fn lemma_cell_index(width: int, height: int, x: int, y: int)
    requires
        0 <= x < width,
        0 <= y < height,
    ensures
        0 <= y * width <= cell_index(width, x, y) < width * height,
        cell_index(width, x, y) / width == y,
        cell_index(width, x, y) % width == x,
{
    assert(y * width + x < width * height) by (nonlinear_arith)
        requires
            0 <= x < width,
            0 <= y < height,
    ;
    assert(0 <= y * width) by (nonlinear_arith)
        requires
            0 <= y,
            0 < width,
    ;
    vstd::arithmetic::div_mod::lemma_fundamental_div_mod_converse(y * width + x, width, y, x);
}

/// The place `i` among the values is the cell `(i % width, i / width)`.
pub proof fn lemma_cell_of_index(width: int, height: int, i: int)
    requires
        0 < width,
        0 <= i < width * height,
    ensures
        0 <= i % width < width,
        0 <= i / width < height,
        cell_index(width, i % width, i / width) == i,
{
    vstd::arithmetic::div_mod::lemma_fundamental_div_mod(i, width);
    vstd::arithmetic::div_mod::lemma_mod_bound(i, width);
    vstd::arithmetic::div_mod::lemma_div_pos_is_pos(i, width);
    let q = i / width;
    let r = i % width;
    assert(q < height) by (nonlinear_arith)
        requires
            i == width * q + r,
            0 <= r < width,
            i < width * height,
            0 < width,
    ;
    assert(q * width + r == i) by (nonlinear_arith)
        requires
            i == width * q + r,
    ;
}

/// The values with the one at the cell `(x, y)` replaced: every other cell
/// of the grid keeps its value.
pub proof fn lemma_update_cell<T>(values: Seq<T>, width: int, height: int, x: int, y: int, value: T)
    requires
        0 <= x < width,
        0 <= y < height,
        values.len() == width * height,
    ensures
        0 <= cell_index(width, x, y) < values.len(),
        values.update(cell_index(width, x, y), value).len() == values.len(),
        forall|other_x: int, other_y: int|
            0 <= other_x < width && 0 <= other_y < height ==> #[trigger] values.update(
                cell_index(width, x, y),
                value,
            )[cell_index(width, other_x, other_y)] == (if other_x == x && other_y == y {
                value
            } else {
                values[cell_index(width, other_x, other_y)]
            }),
{
    lemma_cell_index(width, height, x, y);
    assert forall|other_x: int, other_y: int| 0 <= other_x < width && 0 <= other_y < height implies #[trigger] values.update(
        cell_index(width, x, y),
        value,
    )[cell_index(width, other_x, other_y)] == (if other_x == x && other_y == y {
        value
    } else {
        values[cell_index(width, other_x, other_y)]
    }) by {
        lemma_cell_index(width, height, other_x, other_y);
    }
}

impl<T> Matrix<T> {
    /// Whether there are `width * height` values.
    pub open spec fn wf(&self) -> bool {
        self.values@.len() == self.width * self.height
    }

    /// Whether `(x, y)` is a cell of the grid.
    pub open spec fn holds(&self, x: int, y: int) -> bool {
        0 <= x < self.width && 0 <= y < self.height
    }

    /// The value at `(x, y)`.
    pub open spec fn cell(&self, x: int, y: int) -> T {
        self.values@[cell_index(self.width as int, x, y)]
    }

    /// A grid of the given values.
    pub fn with_values(width: usize, height: usize, values: Vec<T>) -> (r: Matrix<T>)
        requires
            values@.len() == width * height,
        ensures
            r.wf(),
            r.width == width,
            r.height == height,
            r.values@ == values@,
    {
        Matrix { width, height, values }
    }

    /// Whether `pos` is a cell of the grid.
    pub fn in_bounds(&self, pos: &Vec2) -> (r: bool)
        ensures
            r == self.holds(pos.x as int, pos.y as int),
    {
        pos.x >= 0 && pos.y >= 0 && (pos.y as usize) < self.height && (pos.x as usize) < self.width
    }

    /// The value at `pos`, if `pos` is a cell of the grid.
    pub fn at(&self, pos: &Vec2) -> (r: Option<&T>)
        requires
            self.wf(),
        ensures
            match r {
                Some(v) => self.holds(pos.x as int, pos.y as int) && *v == self.cell(
                    pos.x as int,
                    pos.y as int,
                ),
                None => !self.holds(pos.x as int, pos.y as int),
            },
    {
        if self.in_bounds(pos) {
            proof {
                lemma_cell_index(self.width as int, self.height as int, pos.x as int, pos.y as int);
                assert(self.values@.len() == self.values.len());
            }
            Some(&self.values[pos.y as usize * self.width + pos.x as usize])
        } else {
            None
        }
    }

    /// Puts `value` at `pos`, which must be a cell of the grid.
    pub fn set_at(&mut self, pos: &Vec2, value: T)
        requires
            old(self).wf(),
            old(self).holds(pos.x as int, pos.y as int),
        ensures
            final(self).wf(),
            final(self).width == old(self).width,
            final(self).height == old(self).height,
            final(self).values@ == old(self).values@.update(
                cell_index(old(self).width as int, pos.x as int, pos.y as int),
                value,
            ),
    {
        proof {
            lemma_cell_index(self.width as int, self.height as int, pos.x as int, pos.y as int);
            assert(self.values@.len() == self.values.len());
        }
        let index = pos.y as usize * self.width + pos.x as usize;
        self.values[index] = value;
    }

    /// The cell of the `i`-th value, if there is one.
    pub fn get_pos(&self, i: usize) -> (r: Option<Vec2u>)
        requires
            self.wf(),
        ensures
            match r {
                Some(pos) => i < self.values@.len() && pos.x == i % self.width && pos.y == i
                    / self.width && cell_index(self.width as int, pos.x as int, pos.y as int) == i,
                None => i >= self.values@.len(),
            },
    {
        if i < self.values.len() {
            proof {
                if self.width == 0 {
                    assert(self.width * self.height == 0) by (nonlinear_arith)
                        requires
                            self.width == 0,
                    ;
                }
                lemma_cell_of_index(self.width as int, self.height as int, i as int);
            }
            Some(Vec2u { x: i % self.width, y: i / self.width })
        } else {
            None
        }
    }

    /// The width and the height.
    pub fn dimensions(&self) -> (r: Vec2u)
        ensures
            r.x == self.width,
            r.y == self.height,
    {
        Vec2u { x: self.width, y: self.height }
    }

    /// The values of row `i`, left to right, if there is such a row.
    pub fn get_row(&self, i: usize) -> (r: Option<Vec<&T>>)
        requires
            self.wf(),
        ensures
            match r {
                Some(row) => i < self.height && row@.len() == self.width && forall|x: int|
                    0 <= x < self.width ==> *(#[trigger] row@[x]) == self.cell(x, i as int),
                None => i >= self.height,
            },
    {
        if i >= self.height {
            None
        } else {
            let mut row: Vec<&T> = Vec::new();
            let mut x: usize = 0;
            while x < self.width
                invariant
                    x <= self.width,
                    i < self.height,
                    self.wf(),
                    row@.len() == x,
                    forall|k: int| 0 <= k < x ==> *(#[trigger] row@[k]) == self.cell(k, i as int),
                decreases self.width - x,
            {
                proof {
                    lemma_cell_index(self.width as int, self.height as int, x as int, i as int);
                    assert(self.values@.len() == self.values.len());
                }
                row.push(&self.values[i * self.width + x]);
                x += 1;
            }
            Some(row)
        }
    }

    /// The values of column `i`, top to bottom, if there is such a column.
    pub fn get_col(&self, i: usize) -> (r: Option<Vec<&T>>)
        requires
            self.wf(),
        ensures
            match r {
                Some(col) => i < self.width && col@.len() == self.height && forall|y: int|
                    0 <= y < self.height ==> *(#[trigger] col@[y]) == self.cell(i as int, y),
                None => i >= self.width,
            },
    {
        if i >= self.width {
            None
        } else {
            let mut col: Vec<&T> = Vec::new();
            let mut y: usize = 0;
            while y < self.height
                invariant
                    y <= self.height,
                    i < self.width,
                    self.wf(),
                    col@.len() == y,
                    forall|k: int| 0 <= k < y ==> *(#[trigger] col@[k]) == self.cell(i as int, k),
                decreases self.height - y,
            {
                proof {
                    lemma_cell_index(self.width as int, self.height as int, i as int, y as int);
                    assert(self.values@.len() == self.values.len());
                }
                col.push(&self.values[y * self.width + i]);
                y += 1;
            }
            Some(col)
        }
    }
}

impl<T: Copy> Matrix<T> {
    /// A grid in which every cell holds `value`.
    pub fn filled(width: usize, height: usize, value: T) -> (r: Matrix<T>)
        requires
            width * height <= usize::MAX,
        ensures
            r.wf(),
            r.width == width,
            r.height == height,
            forall|i: int| 0 <= i < r.values@.len() ==> r.values@[i] == value,
    {
        let n = width * height;
        let mut values: Vec<T> = Vec::new();
        let mut i: usize = 0;
        while i < n
            invariant
                i <= n,
                values@.len() == i,
                forall|j: int| 0 <= j < i ==> values@[j] == value,
            decreases n - i,
        {
            values.push(value);
            i += 1;
        }
        Matrix { width, height, values }
    }

    /// The cells that hold a value for which `wanted` is set, in the order
    /// of the values; `wanted` has one flag for each value.
    pub fn cells_where(&self, wanted: &Vec<bool>) -> (r: Vec<Vec2u>)
        requires
            self.wf(),
            wanted@.len() == self.values@.len(),
        ensures
            forall|a: int, b: int|
                0 <= a < b < r@.len() ==> cell_index(self.width as int, r@[a].x as int, r@[a].y as int)
                    < cell_index(self.width as int, r@[b].x as int, r@[b].y as int),
            forall|k: int|
                0 <= k < r@.len() ==> {
                    let i = cell_index(self.width as int, (#[trigger] r@[k]).x as int, r@[k].y as int);
                    0 <= i < wanted@.len() && wanted@[i]
                },
            forall|i: int|
                0 <= i < wanted@.len() && wanted@[i] ==> exists|k: int|
                    0 <= k < r@.len() && cell_index(
                        self.width as int,
                        (#[trigger] r@[k]).x as int,
                        r@[k].y as int,
                    ) == i,
    {
        let mut found: Vec<Vec2u> = Vec::new();
        let mut i: usize = 0;
        while i < self.values.len()
            invariant
                i <= self.values@.len(),
                self.wf(),
                wanted@.len() == self.values@.len(),
                forall|a: int, b: int|
                    0 <= a < b < found@.len() ==> cell_index(
                        self.width as int,
                        found@[a].x as int,
                        found@[a].y as int,
                    ) < cell_index(self.width as int, found@[b].x as int, found@[b].y as int),
                forall|k: int|
                    0 <= k < found@.len() ==> {
                        let j = cell_index(
                            self.width as int,
                            (#[trigger] found@[k]).x as int,
                            found@[k].y as int,
                        );
                        0 <= j < i && wanted@[j]
                    },
                forall|j: int|
                    0 <= j < i && wanted@[j] ==> exists|k: int|
                        0 <= k < found@.len() && cell_index(
                            self.width as int,
                            (#[trigger] found@[k]).x as int,
                            found@[k].y as int,
                        ) == j,
            decreases self.values@.len() - i,
        {
            if wanted[i] {
                match self.get_pos(i) {
                    Some(pos) => {
                        let ghost before = found@;
                        found.push(pos);
                        proof {
                            assert forall|j: int| 0 <= j < i + 1 && wanted@[j] implies exists|k: int|
                                0 <= k < found@.len() && cell_index(
                                    self.width as int,
                                    (#[trigger] found@[k]).x as int,
                                    found@[k].y as int,
                                ) == j by {
                                if j < i {
                                    let k = choose|k: int|
                                        0 <= k < before.len() && cell_index(
                                            self.width as int,
                                            (#[trigger] before[k]).x as int,
                                            before[k].y as int,
                                        ) == j;
                                    assert(found@[k] == before[k]);
                                } else {
                                    assert(found@[before.len() as int] == pos);
                                }
                            }
                        }
                    },
                    None => {},
                }
            }
            i += 1;
        }
        found
    }
}

impl<T: Default> Matrix<T> {
    /// A grid in which every cell holds a default value: one that
    /// `T::default()` gives. For the numbers that is 0, for `bool` it is
    /// `false`.
    pub fn new(width: usize, height: usize) -> (r: Matrix<T>)
        requires
            width * height <= usize::MAX,
        ensures
            r.wf(),
            r.width == width,
            r.height == height,
            forall|i: int| 0 <= i < r.values@.len() ==> call_ensures(T::default, (), #[trigger] r.values@[i]),
    {
        let n = width * height;
        let mut values: Vec<T> = Vec::new();
        let mut i: usize = 0;
        while i < n
            invariant
                i <= n,
                values@.len() == i,
                forall|j: int| 0 <= j < i ==> call_ensures(T::default, (), #[trigger] values@[j]),
            decreases n - i,
        {
            values.push(T::default());
            i += 1;
        }
        Matrix { width, height, values }
    }
}

impl Matrix<u8> {
    /// The cells that hold `target`, in the order of the values.
    pub fn find_all(&self, target: u8) -> (r: Vec<Vec2u>)
        requires
            self.wf(),
        ensures
            forall|a: int, b: int|
                0 <= a < b < r@.len() ==> cell_index(self.width as int, r@[a].x as int, r@[a].y as int)
                    < cell_index(self.width as int, r@[b].x as int, r@[b].y as int),
            forall|k: int|
                0 <= k < r@.len() ==> {
                    let i = cell_index(self.width as int, (#[trigger] r@[k]).x as int, r@[k].y as int);
                    0 <= i < self.values@.len() && self.values@[i] == target
                },
            forall|i: int|
                0 <= i < self.values@.len() && self.values@[i] == target ==> exists|k: int|
                    0 <= k < r@.len() && cell_index(
                        self.width as int,
                        (#[trigger] r@[k]).x as int,
                        r@[k].y as int,
                    ) == i,
    {
        let mut wanted: Vec<bool> = Vec::new();
        let mut i: usize = 0;
        while i < self.values.len()
            invariant
                i <= self.values@.len(),
                wanted@.len() == i,
                forall|j: int| 0 <= j < i ==> wanted@[j] == (self.values@[j] == target),
            decreases self.values@.len() - i,
        {
            wanted.push(self.values[i] == target);
            i += 1;
        }
        let found = self.cells_where(&wanted);
        proof {
            assert forall|i: int| 0 <= i < self.values@.len() && self.values@[i] == target implies exists|
                k: int,
            |
                0 <= k < found@.len() && cell_index(
                    self.width as int,
                    (#[trigger] found@[k]).x as int,
                    found@[k].y as int,
                ) == i by {
                assert(wanted@[i]);
            }
        }
        found
    }
}

/// A grid as text: its size and its cells, row by row, in one string.
#[derive(Debug)]
pub struct ProxyMatrix {
    pub width: usize,
    pub height: usize,
    pub string: String,
}

impl ProxyMatrix {
    /// The grid of the values that `parser` reads from the text. The grid
    /// is well formed where `parser` gives one value for each cell.
    pub fn convert<T, F: FnOnce(String) -> Vec<T>>(self, parser: F) -> (r: Matrix<T>)
        requires
            parser.requires((self.string,)),
        ensures
            r.width == self.width,
            r.height == self.height,
            parser.ensures((self.string,), r.values),
    {
        Matrix { width: self.width, height: self.height, values: parser(self.string) }
    }
}

} // verus!
