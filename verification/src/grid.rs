//! The slicing grid over a sprite sheet, cell addressing, and the cell
//! selection.

use vstd::prelude::*;

verus! {

/// The grid a sprite sheet is sliced by.
#[derive(Debug, Clone, PartialEq, Eq, Structural)]
pub struct GridState {
    pub rows: u32,
    pub columns: u32,
    pub cell_width: u32,
    pub cell_height: u32,
    pub offset_x: u32,
    pub offset_y: u32,
}

impl Default for GridState {
    /// Eight by eight cells of 32 by 32 pixels, no offset.
    fn default() -> (r: GridState)
        ensures
            r.rows == 8 && r.columns == 8 && r.cell_width == 32 && r.cell_height == 32
                && r.offset_x == 0 && r.offset_y == 0,
    {
        GridState { rows: 8, columns: 8, cell_width: 32, cell_height: 32, offset_x: 0, offset_y: 0 }
    }
}

impl GridState {
    /// Clamp every dimension to at least one, leaving the offsets alone.
    pub fn normalize(&mut self)
        ensures
            final(self).rows == if old(self).rows >= 1 {
                old(self).rows
            } else {
                1u32
            },
            final(self).columns == if old(self).columns >= 1 {
                old(self).columns
            } else {
                1u32
            },
            final(self).cell_width == if old(self).cell_width >= 1 {
                old(self).cell_width
            } else {
                1u32
            },
            final(self).cell_height == if old(self).cell_height >= 1 {
                old(self).cell_height
            } else {
                1u32
            },
            final(self).offset_x == old(self).offset_x,
            final(self).offset_y == old(self).offset_y,
    {
        if self.rows < 1 {
            self.rows = 1;
        }
        if self.columns < 1 {
            self.columns = 1;
        }
        if self.cell_width < 1 {
            self.cell_width = 1;
        }
        if self.cell_height < 1 {
            self.cell_height = 1;
        }
    }
}

/// The row-major index of a cell.
pub fn cell_index(row: u32, column: u32, columns: u32) -> (r: usize)
    requires
        row * columns + column <= usize::MAX,
    ensures
        r == row * columns + column,
{
    (row as usize) * (columns as usize) + (column as usize)
}

/// How many cells the grid has.
pub fn cell_count(grid: &GridState) -> (r: usize)
    requires
        grid.rows * grid.columns <= usize::MAX,
    ensures
        r == grid.rows * grid.columns,
{
    (grid.rows as usize) * (grid.columns as usize)
}

/// Whether an index addresses a cell of the grid.
pub fn is_valid_cell(grid: &GridState, index: usize) -> (r: bool)
    requires
        grid.rows * grid.columns <= usize::MAX,
    ensures
        r == (index < grid.rows * grid.columns),
{
    index < cell_count(grid)
}

/// The selected cells of the grid, each held once.
#[derive(Debug, Clone)]
pub struct SelectionState {
    pub selected_cells: Vec<usize>,
}

impl SelectionState {
    /// No cell is held twice.
    pub open spec fn wf(self) -> bool {
        forall|k1: int, k2: int|
            0 <= k1 < k2 < self.selected_cells@.len() ==> (#[trigger] self.selected_cells@[k1])
                != (#[trigger] self.selected_cells@[k2])
    }

    /// An empty selection.
    pub fn new_empty() -> (r: SelectionState)
        ensures
            r.wf(),
            r.selected_cells@.len() == 0,
    {
        SelectionState { selected_cells: Vec::new() }
    }

    /// Whether a cell is selected.
    pub fn contains(&self, index: usize) -> (r: bool)
        ensures
            r == self.selected_cells@.contains(index),
    {
        let mut k: usize = 0;
        while k < self.selected_cells.len()
            invariant
                0 <= k <= self.selected_cells@.len(),
                forall|k2: int| 0 <= k2 < k ==> (#[trigger] self.selected_cells@[k2]) != index,
            decreases self.selected_cells@.len() - k,
        {
            if self.selected_cells[k] == index {
                return true;
            }
            k = k + 1;
        }
        false
    }
}

/// Toggle a cell of the selection: an index outside the grid is ignored,
/// a selected cell is removed, an unselected one is added.
pub fn toggle_cell(selection: &mut SelectionState, grid: &GridState, index: usize)
    requires
        old(selection).wf(),
        grid.rows * grid.columns <= usize::MAX,
    ensures
        final(selection).wf(),
        index >= grid.rows * grid.columns ==> final(selection).selected_cells@ == old(selection).selected_cells@,
        index < grid.rows * grid.columns ==> (forall|x: usize|
            final(selection).selected_cells@.contains(x) == (
            if x == index {
                !old(selection).selected_cells@.contains(index)
            } else {
                old(selection).selected_cells@.contains(x)
            })),
{
    if !is_valid_cell(grid, index) {
        return;
    }
    let mut k: usize = 0;
    while k < selection.selected_cells.len()
        invariant
            0 <= k <= selection.selected_cells@.len(),
            selection.wf(),
            *selection == *old(selection),
            (index as int) < grid.rows * grid.columns,
            forall|k2: int| 0 <= k2 < k ==> (#[trigger] selection.selected_cells@[k2]) != index,
        decreases selection.selected_cells@.len() - k,
    {
        if selection.selected_cells[k] == index {
            let ghost before = selection.selected_cells@;
            selection.selected_cells.remove(k);
            proof {
                assert forall|x: usize| selection.selected_cells@.contains(x) == (
                    if x == index {
                        !before.contains(index)
                    } else {
                        before.contains(x)
                    }) by {
                    if x == index {
                        assert(before[k as int] == index);
                        if selection.selected_cells@.contains(index) {
                            let k2 = choose|k2: int|
                                0 <= k2 < selection.selected_cells@.len()
                                    && selection.selected_cells@[k2] == index;
                            if k2 < k {
                                assert(before[k2] == index);
                            } else {
                                assert(before[k2 + 1] == index);
                            }
                            assert(false);
                        }
                    } else {
                        if before.contains(x) {
                            let k2 = choose|k2: int| 0 <= k2 < before.len() && before[k2] == x;
                            if k2 < k {
                                assert(selection.selected_cells@[k2] == x);
                            } else {
                                assert(selection.selected_cells@[k2 - 1] == x);
                            }
                        }
                        if selection.selected_cells@.contains(x) {
                            let k2 = choose|k2: int|
                                0 <= k2 < selection.selected_cells@.len()
                                    && selection.selected_cells@[k2] == x;
                            if k2 < k {
                                assert(before[k2] == x);
                            } else {
                                assert(before[k2 + 1] == x);
                            }
                        }
                    }
                }
            }
            return;
        }
        k = k + 1;
    }
    let ghost before = selection.selected_cells@;
    selection.selected_cells.push(index);
    proof {
        assert forall|x: usize| selection.selected_cells@.contains(x) == (
            if x == index {
                !before.contains(index)
            } else {
                before.contains(x)
            }) by {
            if selection.selected_cells@.contains(x) {
                let k2 = choose|k2: int|
                    0 <= k2 < selection.selected_cells@.len() && selection.selected_cells@[k2] == x;
                if k2 < before.len() {
                    assert(before[k2] == x);
                }
            }
            if before.contains(x) {
                let k2 = choose|k2: int| 0 <= k2 < before.len() && before[k2] == x;
                assert(selection.selected_cells@[k2] == x);
            }
            if x == index {
                assert(selection.selected_cells@.last() == index);
            }
        }
    }
}

/// How many rows of cells an image of the given height offers below the
/// grid's vertical offset; the grid's own row count is the fallback for
/// an image that offers none, or when no size is known.
pub fn derive_rows_from_image(image_height: Option<u32>, grid: &GridState) -> (r: u32)
    ensures
        r >= 1 || (grid.rows == 0 && image_height is None),
        match image_height {
            Some(h) => {
                let ch = if grid.cell_height >= 1 {
                    grid.cell_height as int
                } else {
                    1int
                };
                if h > grid.offset_y {
                    let rows = ((h - grid.offset_y) as int) / ch;
                    r == if rows >= 1 {
                        rows
                    } else {
                        1int
                    }
                } else {
                    r == if grid.rows >= 1 {
                        grid.rows as int
                    } else {
                        1int
                    }
                }
            },
            None => r == if grid.rows >= 1 {
                grid.rows as int
            } else {
                1int
            },
        },
{
    let fallback = if grid.rows >= 1 {
        grid.rows
    } else {
        1
    };
    let h = match image_height {
        Some(h) => h,
        None => {
            return fallback;
        },
    };
    let cell_h = if grid.cell_height >= 1 {
        grid.cell_height
    } else {
        1
    };
    if h <= grid.offset_y {
        return fallback;
    }
    let available = h - grid.offset_y;
    let rows = available / cell_h;
    if rows >= 1 {
        rows
    } else {
        1
    }
}

} // verus!
