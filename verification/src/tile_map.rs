//! The map tile baker: from the first layer of a tile-map project to a flat,
//! row-major table of tile identifiers.
//!
//! The table has one `u16` entry per cell. The entry at index `y * width + x`
//! is the tile identifier of the cell at `(x, y)`, narrowed to 16 bits, or
//! [`EMPTY_TILE`] where the cell holds no tile.

use vstd::prelude::*;
use vstd::arithmetic::div_mod::{lemma_fundamental_div_mod, lemma_fundamental_div_mod_converse};
use vstd::arithmetic::mul::{lemma_mul_inequality, lemma_mul_is_commutative};
use crate::error::BakeError;

verus! {

/// The table entry of a cell that holds no tile.
///
/// A cell that holds tile 0 gets the same entry: the table does not tell the
/// two apart.
pub const EMPTY_TILE: u16 = 0;

/// A tile identifier narrowed to the width of a table entry: its low 16 bits.
pub open spec fn narrowed(id: u32) -> u16 {
    (id % 0x1_0000) as u16
}

/// The table entry that stands for a cell.
pub open spec fn entry_of(cell: Option<u32>) -> u16 {
    match cell {
        Some(id) => narrowed(id),
        None => EMPTY_TILE,
    }
}

/// Computes the table entry that stands for a cell.
pub fn table_entry(cell: Option<u32>) -> (entry: u16)
    ensures
        entry == entry_of(cell),
        cell matches Some(id) ==> (id <= u16::MAX ==> entry == id),
{
    match cell {
        Some(id) => (id % 0x1_0000) as u16,
        None => EMPTY_TILE,
    }
}

/// A finite rectangular grid of cells, each one empty or holding a tile
/// identifier.
#[derive(Debug, PartialEq, Eq)]
pub struct TileGrid {
    width: u32,
    height: u32,
    /// The cells, row after row.
    cells: Vec<Option<u32>>,
}

impl TileGrid {
    #[verifier::type_invariant]
    spec fn well_formed(self) -> bool {
        self.cells@.len() == self.width * self.height
    }

    /// The number of cells in a row.
    pub closed spec fn spec_width(&self) -> u32 {
        self.width
    }

    /// The number of rows.
    pub closed spec fn spec_height(&self) -> u32 {
        self.height
    }

    /// Whether `(x, y)` names a cell of the grid.
    pub open spec fn in_grid(&self, x: int, y: int) -> bool {
        0 <= x < self.spec_width() && 0 <= y < self.spec_height()
    }

    /// What the cell at column `x` of row `y` holds; `None` for an empty cell
    /// and for a position outside the grid.
    pub closed spec fn cell(&self, x: int, y: int) -> Option<u32> {
        if 0 <= x < self.width && 0 <= y < self.height {
            self.cells@[y * self.width + x]
        } else {
            None
        }
    }

    /// The number of cells of the grid.
    pub open spec fn area(&self) -> nat {
        (self.spec_width() * self.spec_height()) as nat
    }

    /// The baked table of the grid: entry `i` stands for the cell in column
    /// `i % width` of row `i / width`.
    pub open spec fn baked(&self) -> Seq<u16> {
        Seq::new(
            self.area(),
            |i: int| entry_of(self.cell(i % (self.spec_width() as int), i / (self.spec_width() as int))),
        )
    }

    /// A grid of `width` by `height` empty cells, or `None` where the number
    /// of cells does not fit in a `usize`.
    pub fn new(width: u32, height: u32) -> (grid: Option<TileGrid>)
        ensures
            grid is Some <==> width * height <= usize::MAX,
            grid matches Some(g) ==> {
                &&& g.spec_width() == width
                &&& g.spec_height() == height
                &&& forall|x: int, y: int| g.cell(x, y) is None
            },
    {
        assert(width * height <= u64::MAX) by (nonlinear_arith)
            requires
                width <= u32::MAX,
                height <= u32::MAX,
        ;
        let area: u64 = (width as u64) * (height as u64);
        if area > usize::MAX as u64 {
            return None;
        }
        let count: usize = area as usize;
        let mut cells: Vec<Option<u32>> = Vec::new();
        while cells.len() < count
            invariant
                cells@.len() <= count,
                forall|i: int| 0 <= i < cells@.len() ==> cells@[i] is None,
            decreases count - cells@.len(),
        {
            cells.push(None);
        }
        let grid = TileGrid { width, height, cells };
        proof {
            assert forall|x: int, y: int| #[trigger] grid.cell(x, y) is None by {
                if 0 <= x < width && 0 <= y < height {
                    lemma_cell_index_in_range(x, y, width as int, height as int);
                }
            }
        }
        Some(grid)
    }

    /// The grid of `width` by `height` cells whose rows, one after the other,
    /// are `cells`; `None` where `cells` does not hold exactly
    /// `width * height` cells.
    pub fn from_cells(width: u32, height: u32, cells: Vec<Option<u32>>) -> (grid: Option<TileGrid>)
        ensures
            grid is Some <==> cells@.len() == width * height,
            grid matches Some(g) ==> {
                &&& g.spec_width() == width
                &&& g.spec_height() == height
                &&& forall|x: int, y: int|
                    0 <= x < width && 0 <= y < height ==> g.cell(x, y) == cells@[y * width + x]
            },
    {
        assert(width * height <= u64::MAX) by (nonlinear_arith)
            requires
                width <= u32::MAX,
                height <= u32::MAX,
        ;
        let area: u64 = (width as u64) * (height as u64);
        if cells.len() as u64 != area {
            return None;
        }
        Some(TileGrid { width, height, cells })
    }

    /// The number of cells in a row.
    #[verifier::when_used_as_spec(spec_width)]
    pub fn width(&self) -> (w: u32)
        ensures
            w == self.spec_width(),
    {
        self.width
    }

    /// The number of rows.
    #[verifier::when_used_as_spec(spec_height)]
    pub fn height(&self) -> (h: u32)
        ensures
            h == self.spec_height(),
    {
        self.height
    }

    /// What the cell at column `x` of row `y` holds; `None` for an empty cell
    /// and for a position outside the grid.
    pub fn get(&self, x: u32, y: u32) -> (cell: Option<u32>)
        ensures
            cell == self.cell(x as int, y as int),
    {
        proof {
            use_type_invariant(self);
        }
        let count: usize = self.cells.len();
        if x < self.width && y < self.height {
            proof {
                lemma_cell_index_in_range(x as int, y as int, self.width as int, self.height as int);
                assert(y * self.width + x < count);
            }
            let row_start: usize = (y as usize) * (self.width as usize);
            self.cells[row_start + x as usize]
        } else {
            None
        }
    }

    /// Puts `cell` at column `x` of row `y` and returns `true`; for a
    /// position outside the grid, changes nothing and returns `false`.
    pub fn set(&mut self, x: u32, y: u32, cell: Option<u32>) -> (done: bool)
        ensures
            done == old(self).in_grid(x as int, y as int),
            final(self).spec_width() == old(self).spec_width(),
            final(self).spec_height() == old(self).spec_height(),
            forall|i: int, j: int|
                final(self).cell(i, j) == if done && i == x && j == y {
                    cell
                } else {
                    old(self).cell(i, j)
                },
    {
        proof {
            use_type_invariant(&*self);
        }
        let ghost before = *self;
        let count: usize = self.cells.len();
        if x < self.width && y < self.height {
            proof {
                lemma_cell_index_in_range(x as int, y as int, self.width as int, self.height as int);
                assert(y * self.width + x < count);
            }
            let row_start: usize = (y as usize) * (self.width as usize);
            let index: usize = row_start + x as usize;
            self.cells[index] = cell;
            proof {
                let w = self.width as int;
                let h = self.height as int;
                assert forall|i: int, j: int|
                    #[trigger] self.cell(i, j) == if i == x && j == y {
                        cell
                    } else {
                        before.cell(i, j)
                    } by {
                    if 0 <= i < w && 0 <= j < h {
                        lemma_cell_index_in_range(i, j, w, h);
                        if !(i == x && j == y) {
                            lemma_cell_index_differs(i, j, x as int, y as int, w);
                        }
                    }
                }
            }
            true
        } else {
            false
        }
    }

    /// Bakes the grid: visits the cells row after row, each row from left to
    /// right, and emits for each the entry that stands for it.
    pub fn bake(&self) -> (table: Vec<u16>)
        ensures
            table@ == self.baked(),
            table@.len() == self.spec_width() * self.spec_height(),
            forall|x: int, y: int|
                self.in_grid(x, y) ==> table@[y * self.spec_width() + x] == entry_of(
                    self.cell(x, y),
                ),
    {
        proof {
            use_type_invariant(self);
        }
        let count: usize = self.cells.len();
        let width: usize = self.width as usize;
        let mut table: Vec<u16> = Vec::new();
        let mut pos: usize = 0;
        while pos < count
            invariant
                pos <= count,
                count == self.width * self.height,
                width == self.width,
                table@.len() == pos,
                forall|i: int|
                    0 <= i < pos ==> table@[i] == entry_of(
                        self.cell(i % (width as int), i / (width as int)),
                    ),
            decreases count - pos,
        {
            assert(width > 0 && pos / width < self.height) by {
                lemma_position_splits(pos as int, self.width as int, self.height as int);
            }
            let x: u32 = (pos % width) as u32;
            let y: u32 = (pos / width) as u32;
            let cell = self.get(x, y);
            table.push(table_entry(cell));
            pos = pos + 1;
        }
        proof {
            assert(table@ =~= self.baked());
            self.lemma_baked_is_row_major();
        }
        table
    }

    /// The baked table has one entry per cell, and the entry at index
    /// `y * width + x` stands for the cell at `(x, y)`.
    pub proof fn lemma_baked_is_row_major(&self)
        ensures
            self.baked().len() == self.spec_width() * self.spec_height(),
            forall|x: int, y: int|
                self.in_grid(x, y) ==> {
                    &&& 0 <= y * self.spec_width() + x < self.baked().len()
                    &&& self.baked()[y * self.spec_width() + x] == entry_of(self.cell(x, y))
                },
    {
        let w = self.spec_width() as int;
        let h = self.spec_height() as int;
        assert(w * h >= 0) by (nonlinear_arith)
            requires
                w >= 0,
                h >= 0,
        ;
        assert forall|x: int, y: int| self.in_grid(x, y) implies {
            &&& 0 <= y * w + x < self.baked().len()
            &&& self.baked()[y * w + x] == entry_of(self.cell(x, y))
        } by {
            lemma_cell_index_in_range(x, y, w, h);
            lemma_fundamental_div_mod_converse(y * w + x, w, y, x);
        }
    }

    /// Whether `other` has the size of this grid and, cell for cell, holds
    /// what this grid holds.
    pub open spec fn same_cells(&self, other: &TileGrid) -> bool {
        &&& self.spec_width() == other.spec_width()
        &&& self.spec_height() == other.spec_height()
        &&& forall|x: int, y: int|
            self.in_grid(x, y) ==> #[trigger] self.cell(x, y) == other.cell(x, y)
    }

    /// Baking is a function of what the grid holds: two grids of one size
    /// that hold the same cells have the same table, entry for entry.
    pub proof fn lemma_same_cells_same_table(&self, other: &TileGrid)
        requires
            self.same_cells(other),
        ensures
            self.baked() == other.baked(),
    {
        let w = self.spec_width() as int;
        let h = self.spec_height() as int;
        assert forall|i: int| 0 <= i < self.baked().len() implies self.baked()[i]
            == other.baked()[i] by {
            lemma_position_splits(i, w, h);
            assert(self.in_grid(i % w, i / w));
        }
        assert(self.baked() =~= other.baked());
    }
}

/// The index `y * w + x` of a cell of a `w` by `h` grid lies below `w * h`.
proof fn lemma_cell_index_in_range(x: int, y: int, w: int, h: int)
    requires
        0 <= x < w,
        0 <= y < h,
    ensures
        0 <= y * w,
        y * w + x < w * h,
        y * w <= w * h,
{
    assert(0 <= y * w) by (nonlinear_arith)
        requires
            0 <= y,
            0 <= w,
    ;
    assert((y + 1) * w <= h * w) by {
        lemma_mul_inequality(y + 1, h, w);
    }
    assert((y + 1) * w == y * w + w) by (nonlinear_arith);
    lemma_mul_is_commutative(h, w);
}

/// Two different cells of one grid have different indices.
proof fn lemma_cell_index_differs(x1: int, y1: int, x2: int, y2: int, w: int)
    requires
        0 <= x1 < w,
        0 <= x2 < w,
        x1 != x2 || y1 != y2,
    ensures
        y1 * w + x1 != y2 * w + x2,
{
    lemma_fundamental_div_mod_converse(y1 * w + x1, w, y1, x1);
    lemma_fundamental_div_mod_converse(y2 * w + x2, w, y2, x2);
}

/// An index below `w * h` splits into a column below `w` and a row below `h`.
proof fn lemma_position_splits(pos: int, w: int, h: int)
    requires
        0 <= pos < w * h,
        0 <= w,
        0 <= h,
    ensures
        w > 0,
        0 <= pos % w < w,
        0 <= pos / w < h,
        pos == (pos / w) * w + pos % w,
{
    if w == 0 {
        assert(w * h == 0) by (nonlinear_arith)
            requires
                w == 0,
        ;
    }
    lemma_fundamental_div_mod(pos, w);
    let q = pos / w;
    assert(w * q == q * w) by {
        lemma_mul_is_commutative(w, q);
    }
    assert(0 <= q) by (nonlinear_arith)
        requires
            pos == q * w + pos % w,
            0 <= pos,
            0 <= pos % w < w,
    ;
    if q >= h {
        assert(q * w >= h * w) by {
            lemma_mul_inequality(h, q, w);
        }
        lemma_mul_is_commutative(h, w);
    }
}

/// What a layer of a tile-map project is.
#[derive(Debug, PartialEq, Eq)]
pub enum Layer {
    /// A tile layer of fixed size.
    Tiles(TileGrid),
    /// A tile layer without bounds.
    InfiniteTiles,
    /// A layer of free-standing objects.
    Objects,
    /// A layer that shows one image.
    Image,
    /// A layer that groups other layers.
    Group,
}

/// A tile-map project: its layers, bottom first.
#[derive(Debug, PartialEq, Eq)]
pub struct TileMap {
    pub layers: Vec<Layer>,
}

impl TileMap {
    /// The grid of the first layer, where the project has a first layer and
    /// that layer is a finite tile grid.
    pub open spec fn first_grid(&self) -> Option<TileGrid> {
        if self.layers@.len() > 0 {
            match self.layers@[0] {
                Layer::Tiles(grid) => Some(grid),
                _ => None,
            }
        } else {
            None
        }
    }

    /// What baking the project gives: the baked table of the first layer's
    /// grid, or [`BakeError::LayerKind`] where there is no such grid.
    pub open spec fn baked(&self) -> Result<Seq<u16>, BakeError> {
        match self.first_grid() {
            Some(grid) => Ok(grid.baked()),
            None => Err(BakeError::LayerKind),
        }
    }

    /// Bakes the first layer of the project. The other layers are not read.
    pub fn bake(&self) -> (result: Result<Vec<u16>, BakeError>)
        ensures
            table_result_view(result) == self.baked(),
    {
        if self.layers.len() == 0 {
            return Err(BakeError::LayerKind);
        }
        match &self.layers[0] {
            Layer::Tiles(grid) => Ok(grid.bake()),
            _ => Err(BakeError::LayerKind),
        }
    }
}

/// The outcome of a bake with the table, if any, taken by its view.
pub open spec fn table_result_view(result: Result<Vec<u16>, BakeError>) -> Result<Seq<u16>, BakeError> {
    match result {
        Ok(table) => Ok(table@),
        Err(e) => Err(e),
    }
}

/// What baking gives for the outcome of loading a tile-map project:
/// [`BakeError::Load`] where loading gave nothing, else what baking the
/// project gives.
pub open spec fn baked_tile_map(loaded: Option<TileMap>) -> Result<Seq<u16>, BakeError> {
    match loaded {
        Some(map) => map.baked(),
        None => Err(BakeError::Load { file: 0 }),
    }
}

/// Bakes a tile-map project file, given what loading it gave: `None` where
/// the file is missing, unreadable or not a tile-map project.
pub fn bake_tile_map(loaded: &Option<TileMap>) -> (result: Result<Vec<u16>, BakeError>)
    ensures
        table_result_view(result) == baked_tile_map(*loaded),
        result is Ok <==> (*loaded matches Some(map) && map.first_grid() is Some),
        result matches Ok(table) ==> {
            let grid = loaded->0.first_grid()->0;
            &&& table@.len() == grid.spec_width() * grid.spec_height()
            &&& forall|x: int, y: int|
                grid.in_grid(x, y) ==> table@[y * grid.spec_width() + x] == entry_of(
                    grid.cell(x, y),
                )
        },
{
    match loaded {
        Some(map) => {
            let result = map.bake();
            proof {
                if let Some(grid) = map.first_grid() {
                    grid.lemma_baked_is_row_major();
                }
            }
            result
        },
        None => Err(BakeError::Load { file: 0 }),
    }
}

} // verus!
