use vstd::arithmetic::div_mod::{lemma_fundamental_div_mod, lemma_fundamental_div_mod_converse};
use vstd::prelude::*;
use crate::grid::{lemma_cells_on_board, Grid};
use crate::matrix::{cell_entry, GameMatrix};

verus! {

/// A square of the screen: its left and top edge in pixels and the length
/// of its side.
pub ghost struct Square {
    pub left: int,
    pub top: int,
    pub size: int,
}

/// What is under the pointer: the cell, the square it covers, and whether a
/// live cell of the board is there.
pub ghost struct Spot {
    pub x: int,
    pub y: int,
    pub square: Square,
    pub alive: bool,
}

/// The square that a cell covers on the screen.
#[derive(Clone, Copy, Debug, PartialEq, Eq, Structural)]
pub struct CellShape {
    /// The first column of pixels of the square.
    pub left: i64,
    /// The first row of pixels of the square.
    pub top: i64,
    /// The number of pixels along a side.
    pub size: u32,
}

/// What to draw under the pointer.
#[derive(Clone, Copy, Debug, PartialEq, Eq, Structural)]
pub struct Hover {
    /// The column of the cell under the pointer.
    pub x: i64,
    /// The row of the cell under the pointer.
    pub y: i64,
    /// The square of that cell.
    pub shape: CellShape,
    /// Whether a live cell of the board is there.
    pub alive: bool,
}

impl View for CellShape {
    type V = Square;

    open spec fn view(&self) -> Square {
        Square { left: self.left as int, top: self.top as int, size: self.size as int }
    }
}

impl DeepView for CellShape {
    type V = Square;

    open spec fn deep_view(&self) -> Square {
        self@
    }
}

impl View for Hover {
    type V = Spot;

    open spec fn view(&self) -> Spot {
        Spot { x: self.x as int, y: self.y as int, square: self.shape@, alive: self.alive }
    }
}

/// A pair of pixel coordinates as mathematical integers.
pub open spec fn pixels(pair: (i32, i32)) -> (int, int) {
    (pair.0 as int, pair.1 as int)
}

/// A pair of pixel coordinates as mathematical integers, where there is one.
pub open spec fn pixels_of(pair: Option<(i32, i32)>) -> Option<(int, int)> {
    match pair {
        Some(pair) => Some(pixels(pair)),
        None => None,
    }
}

/// The column (or row) that holds a pixel: how many whole cells lie between
/// the offset and the pixel, rounded down, so that a pixel before the offset
/// falls in a column below zero.
pub open spec fn cell_coord(pixel: int, offset: int, cell_size: int) -> int {
    (pixel - offset) / cell_size
}

/// The first pixel of a column (or row).
pub open spec fn cell_origin(index: int, offset: int, cell_size: int) -> int {
    offset + index * cell_size
}

/// Whether a run of `cells` cells of the given size is no longer than `extent`.
pub open spec fn fits(cells: int, cell_size: int, extent: int) -> bool {
    cells * cell_size <= extent
}

/// The offset that leaves the same margin on both sides of a run of cells,
/// rounded down.
pub open spec fn centered(cells: int, cell_size: int, extent: int) -> int {
    (extent - cells * cell_size) / 2
}

/// The square of the cell `(x, y)`.
pub open spec fn square_of(cell_size: int, world_offset: (int, int), x: int, y: int) -> Square {
    Square {
        left: cell_origin(x, world_offset.0, cell_size),
        top: cell_origin(y, world_offset.1, cell_size),
        size: cell_size,
    }
}

/// The square of a live cell, and nothing for a dead one.
pub open spec fn square_if_alive(cell_size: int, world_offset: (int, int)) -> spec_fn(
    ((int, int), bool),
) -> Option<Square> {
    |cell: ((int, int), bool)|
        if cell.1 {
            Some(square_of(cell_size, world_offset, cell.0.0, cell.0.1))
        } else {
            None
        }
}

/// The squares of the live cells of a board, in the order of the traversal.
pub open spec fn live_squares(grid: Grid, cell_size: int, world_offset: (int, int)) -> Seq<Square> {
    grid.cells().filter_map(square_if_alive(cell_size, world_offset))
}

/// What is under a point of the window.
pub open spec fn spot_at(grid: Grid, cell_size: int, world_offset: (int, int), point: (int, int)) -> Spot {
    let x = cell_coord(point.0, world_offset.0, cell_size);
    let y = cell_coord(point.1, world_offset.1, cell_size);
    Spot { x, y, square: square_of(cell_size, world_offset, x, y), alive: grid.alive(x, y) }
}

/// A pixel of a column is mapped back to that column.
pub proof fn lemma_pixel_of_cell(index: int, offset: int, cell_size: int, pixel: int)
    requires
        cell_size > 0,
        cell_origin(index, offset, cell_size) <= pixel < cell_origin(index, offset, cell_size)
            + cell_size,
    ensures
        cell_coord(pixel, offset, cell_size) == index,
{
    let rest = pixel - cell_origin(index, offset, cell_size);
    lemma_fundamental_div_mod_converse(pixel - offset, cell_size, index, rest);
}

/// A pixel lies in the column that it is mapped to.
pub proof fn lemma_cell_of_pixel(pixel: int, offset: int, cell_size: int)
    requires
        cell_size > 0,
    ensures
        cell_origin(cell_coord(pixel, offset, cell_size), offset, cell_size) <= pixel
            < cell_origin(cell_coord(pixel, offset, cell_size), offset, cell_size) + cell_size,
{
    lemma_fundamental_div_mod(pixel - offset, cell_size);
    assert(cell_size * ((pixel - offset) / cell_size) == ((pixel - offset) / cell_size)
        * cell_size) by (nonlinear_arith);
    assert(0 <= (pixel - offset) % cell_size < cell_size);
}

/// The square under a point holds the point, and every point of a cell's
/// square is mapped to that cell: mapping a point to its cell and drawing a
/// cell's square are inverse to each other.
pub proof fn lemma_square_and_cell_are_inverse(
    cell_size: int,
    world_offset: (int, int),
    x: int,
    y: int,
    point: (int, int),
)
    requires
        cell_size > 0,
    ensures
        ({
            let under = square_of(
                cell_size,
                world_offset,
                cell_coord(point.0, world_offset.0, cell_size),
                cell_coord(point.1, world_offset.1, cell_size),
            );
            &&& under.left <= point.0 < under.left + under.size
            &&& under.top <= point.1 < under.top + under.size
        }),
        ({
            let square = square_of(cell_size, world_offset, x, y);
            square.left <= point.0 < square.left + square.size && square.top <= point.1 < square.top
                + square.size ==> cell_coord(point.0, world_offset.0, cell_size) == x && cell_coord(
                point.1,
                world_offset.1,
                cell_size,
            ) == y
        }),
{
    lemma_cell_of_pixel(point.0, world_offset.0, cell_size);
    lemma_cell_of_pixel(point.1, world_offset.1, cell_size);
    let square = square_of(cell_size, world_offset, x, y);
    if square.left <= point.0 < square.left + square.size {
        lemma_pixel_of_cell(x, world_offset.0, cell_size, point.0);
    }
    if square.top <= point.1 < square.top + square.size {
        lemma_pixel_of_cell(y, world_offset.1, cell_size, point.1);
    }
}

/// Division that rounds down, for a positive divisor.
fn floor_div(numerator: i64, denominator: i64) -> (quotient: i64)
    requires
        denominator > 0,
        i64::MIN < numerator,
        denominator - numerator <= i64::MAX,
    ensures
        quotient == numerator / denominator,
{
    if numerator >= 0 {
        numerator / denominator
    } else {
        let up: i64 = (-numerator + (denominator - 1)) / denominator;
        proof {
            let rest = (-numerator + (denominator - 1)) % denominator as int;
            lemma_fundamental_div_mod(-numerator + (denominator - 1), denominator as int);
            assert(denominator * up == up * denominator) by (nonlinear_arith);
            assert((-up) * denominator == -(up * denominator)) by (nonlinear_arith);
            lemma_fundamental_div_mod_converse(
                numerator as int,
                denominator as int,
                -up,
                denominator - 1 - rest,
            );
        }
        -up
    }
}

/// Maps a point of the window to the cell that is drawn there, for cells
/// that have a size. The result is not held to any board: a point left of or
/// above the offset gives a negative coordinate, one far to the right a
/// coordinate past the last column.
pub fn window_pos_to_point_xy(cell_size: u32, world_offset: (i32, i32), point: (i32, i32)) -> (cell:
    (i64, i64))
    requires
        cell_size > 0,
    ensures
        cell.0 == cell_coord(point.0 as int, world_offset.0 as int, cell_size as int),
        cell.1 == cell_coord(point.1 as int, world_offset.1 as int, cell_size as int),
{
    let x = floor_div(point.0 as i64 - world_offset.0 as i64, cell_size as i64);
    let y = floor_div(point.1 as i64 - world_offset.1 as i64, cell_size as i64);
    (x, y)
}

/// The largest side with which a run of `cells` cells is no longer than
/// `extent`. A run of no cells sets no limit: there the side is the largest
/// that a `u32` holds.
pub open spec fn largest_side(cells: int, extent: int) -> int {
    if cells > 0 {
        extent / cells
    } else {
        u32::MAX as int
    }
}

/// The cell size at which a board fits a frame: the smaller of the largest
/// sides that its width and its height allow.
pub open spec fn fitting_cell_size(width: int, height: int, frame_width: int, frame_height: int) -> int {
    if largest_side(height, frame_height) < largest_side(width, frame_width) {
        largest_side(height, frame_height)
    } else {
        largest_side(width, frame_width)
    }
}

/// With its largest side a run of cells is no longer than the extent, and
/// with any larger side it is.
pub proof fn lemma_largest_side(cells: int, extent: int)
    requires
        0 <= cells,
        0 <= extent <= u32::MAX,
    ensures
        0 <= largest_side(cells, extent) <= u32::MAX,
        fits(cells, largest_side(cells, extent), extent),
        forall|smaller: int|
            0 <= smaller <= largest_side(cells, extent) ==> #[trigger] fits(cells, smaller, extent),
        cells > 0 ==> forall|larger: int|
            largest_side(cells, extent) < larger ==> !#[trigger] fits(cells, larger, extent),
{
    if cells > 0 {
        let side = extent / cells;
        lemma_fundamental_div_mod(extent, cells);
        assert(0 <= side <= extent) by (nonlinear_arith)
            requires
                cells > 0,
                extent >= 0,
                extent == cells * side + extent % cells,
                0 <= extent % cells < cells,
        ;
        assert forall|smaller: int| 0 <= smaller <= side implies #[trigger] fits(
            cells,
            smaller,
            extent,
        ) by {
            assert(cells * smaller <= cells * side) by (nonlinear_arith)
                requires
                    cells > 0,
                    smaller <= side,
            ;
        }
        assert forall|larger: int| side < larger implies !#[trigger] fits(cells, larger, extent) by {
            assert(cells * larger >= cells * side + cells) by (nonlinear_arith)
                requires
                    cells > 0,
                    larger >= side + 1,
            ;
        }
    } else {
        assert forall|smaller: int| 0 <= smaller <= u32::MAX implies #[trigger] fits(
            cells,
            smaller,
            extent,
        ) by {
            assert(cells * smaller == 0) by (nonlinear_arith)
                requires
                    cells == 0,
            ;
        }
    }
}

/// The fitting cell size is the largest size, among those that a `u32` holds,
/// with which the board is neither wider nor taller than the frame.
pub proof fn lemma_fitting_cell_size_is_largest(
    width: int,
    height: int,
    frame_width: int,
    frame_height: int,
)
    requires
        0 <= width,
        0 <= height,
        0 <= frame_width <= u32::MAX,
        0 <= frame_height <= u32::MAX,
    ensures
        0 <= fitting_cell_size(width, height, frame_width, frame_height) <= u32::MAX,
        fits(width, fitting_cell_size(width, height, frame_width, frame_height), frame_width),
        fits(height, fitting_cell_size(width, height, frame_width, frame_height), frame_height),
        forall|larger: int|
            fitting_cell_size(width, height, frame_width, frame_height) < larger <= u32::MAX ==> !(
            #[trigger] fits(width, larger, frame_width) && fits(height, larger, frame_height)),
{
    lemma_largest_side(width, frame_width);
    lemma_largest_side(height, frame_height);
}

/// The largest side with which a run of `cells` cells is no longer than
/// `extent`.
fn calc_largest_side(cells: usize, extent: u32) -> (side: u32)
    ensures
        side == largest_side(cells as int, extent as int),
{
    proof {
        lemma_largest_side(cells as int, extent as int);
    }
    if cells == 0 {
        u32::MAX
    } else {
        (extent as u64 / cells as u64) as u32
    }
}

/// The cell size at which the whole board fits the frame: for a board with
/// cells in both directions, the smaller of `frame_width / width` and
/// `frame_height / height`.
pub fn calc_cell_size(game_matrix: &GameMatrix, frame_width: u32, frame_height: u32) -> (cell_size:
    u32)
    ensures
        cell_size == fitting_cell_size(
            game_matrix@.width as int,
            game_matrix@.height as int,
            frame_width as int,
            frame_height as int,
        ),
{
    let max_cell_height = calc_largest_side(game_matrix.height(), frame_height);
    let max_cell_width = calc_largest_side(game_matrix.width(), frame_width);
    if max_cell_height < max_cell_width {
        max_cell_height
    } else {
        max_cell_width
    }
}

/// The offset at which a board drawn with the given cell size stands in the
/// middle of the frame: half of what the frame has left over in each
/// direction, rounded down. A board larger than the frame gets a negative
/// offset. The extent of the board in pixels has to be one that a `u32`
/// holds.
pub fn calc_window_offset(
    game_matrix: &GameMatrix,
    cell_size: u32,
    frame_width: u32,
    frame_height: u32,
) -> (offset: (i32, i32))
    requires
        game_matrix@.width * cell_size <= u32::MAX,
        game_matrix@.height * cell_size <= u32::MAX,
    ensures
        offset.0 == centered(game_matrix@.width as int, cell_size as int, frame_width as int),
        offset.1 == centered(game_matrix@.height as int, cell_size as int, frame_height as int),
{
    let board_width: u64 = game_matrix.width() as u64 * cell_size as u64;
    let board_height: u64 = game_matrix.height() as u64 * cell_size as u64;
    let left_offset = floor_div(frame_width as i64 - board_width as i64, 2);
    let top_offset = floor_div(frame_height as i64 - board_height as i64, 2);
    (left_offset as i32, top_offset as i32)
}

/// The square that the cell `point_xy` covers on the screen. The cell need
/// not be one of a board, but the edges of its square have to be pixels that
/// an `i64` holds.
pub fn make_cell_shape(cell_size: u32, world_offset: (i32, i32), point_xy: (i64, i64)) -> (shape:
    CellShape)
    requires
        i64::MIN <= cell_origin(point_xy.0 as int, world_offset.0 as int, cell_size as int)
            <= i64::MAX,
        i64::MIN <= cell_origin(point_xy.1 as int, world_offset.1 as int, cell_size as int)
            <= i64::MAX,
    ensures
        shape@ == square_of(
            cell_size as int,
            pixels(world_offset),
            point_xy.0 as int,
            point_xy.1 as int,
        ),
{
    let (x, y) = point_xy;
    proof {
        lemma_product_bounds(x as int, cell_size as int);
        lemma_product_bounds(y as int, cell_size as int);
    }
    let left: i128 = world_offset.0 as i128 + x as i128 * cell_size as i128;
    let top: i128 = world_offset.1 as i128 + y as i128 * cell_size as i128;
    CellShape { left: left as i64, top: top as i64, size: cell_size }
}

/// The product of a cell coordinate and a cell size is far from the limits
/// of an `i128`.
proof fn lemma_product_bounds(coordinate: int, cell_size: int)
    by (nonlinear_arith)
    requires
        -0x8000_0000_0000_0000 <= coordinate <= 0x7fff_ffff_ffff_ffff,
        0 <= cell_size <= 0xffff_ffff,
    ensures
        -0x8000_0000_0000_0000_0000_0000 <= coordinate * cell_size
            <= 0x8000_0000_0000_0000_0000_0000,
{
}

/// The cell of a board that a signed coordinate names, if it can name one:
/// neither part is negative or beyond what a `usize` holds.
pub fn board_cell(point_xy: (i64, i64)) -> (cell: Option<(usize, usize)>)
    ensures
        cell is Some <==> 0 <= point_xy.0 <= usize::MAX && 0 <= point_xy.1 <= usize::MAX,
        cell matches Some(c) ==> c.0 == point_xy.0 && c.1 == point_xy.1,
{
    let (x, y) = point_xy;
    if x < 0 || y < 0 || x as u64 > usize::MAX as u64 || y as u64 > usize::MAX as u64 {
        None
    } else {
        Some((x as usize, y as usize))
    }
}

/// The squares to fill for the live cells of the board, in the order of the
/// traversal. The cells have to have a size, and the extent of the board in
/// pixels has to be one that a `u32` holds.
pub fn draw_matrix_state(game_matrix: &GameMatrix, cell_size: u32, world_offset: (i32, i32)) -> (shapes:
    Vec<CellShape>)
    requires
        cell_size > 0,
        game_matrix@.width * cell_size <= u32::MAX,
        game_matrix@.height * cell_size <= u32::MAX,
    ensures
        shapes.deep_view() == live_squares(game_matrix@, cell_size as int, pixels(world_offset)),
{
    let cells = game_matrix.iter_cells();
    let ghost all = game_matrix@.cells();
    let ghost pick = square_if_alive(cell_size as int, pixels(world_offset));
    let mut shapes: Vec<CellShape> = Vec::new();
    let mut i: usize = 0;
    assert(all.take(0).filter_map(pick) =~= Seq::<Square>::empty());
    assert(shapes.deep_view() =~= Seq::<Square>::empty());
    while i < cells.len()
        invariant
            i <= cells@.len(),
            cell_size > 0,
            game_matrix@.width * cell_size <= u32::MAX,
            game_matrix@.height * cell_size <= u32::MAX,
            all == game_matrix@.cells(),
            pick == square_if_alive(cell_size as int, pixels(world_offset)),
            cells@.len() == all.len(),
            forall|k: int| 0 <= k < cells@.len() ==> cell_entry(#[trigger] cells@[k]) == all[k],
            shapes.deep_view() == all.take(i as int).filter_map(pick),
        decreases cells@.len() - i,
    {
        let (cell_xy, cell_is_alive) = cells[i];
        proof {
            let w = game_matrix@.width as int;
            let h = game_matrix@.height as int;
            let x = cell_xy.0 as int;
            let y = cell_xy.1 as int;
            assert(cell_entry(cells@[i as int]) == all[i as int]);
            lemma_cells_on_board(game_matrix@, i as int);
            assert(0 <= x * cell_size <= u32::MAX && 0 <= y * cell_size <= u32::MAX && x
                <= u32::MAX && y <= u32::MAX) by (nonlinear_arith)
                requires
                    0 <= x < w,
                    0 <= y < h,
                    cell_size > 0,
                    w * cell_size <= u32::MAX,
                    h * cell_size <= u32::MAX,
            ;
            all.lemma_filter_map_take_succ(pick, i as int);
        }
        let cell_shape = make_cell_shape(
            cell_size,
            world_offset,
            (cell_xy.0 as i64, cell_xy.1 as i64),
        );

        let ghost drawn = shapes.deep_view();
        if cell_is_alive {
            shapes.push(cell_shape);
            assert(shapes.deep_view() =~= drawn + seq![cell_shape@]);
        }
        i = i + 1;
    }
    assert(all.take(i as int) =~= all);
    shapes
}

/// What to draw under the pointer: the square of the cell that holds the
/// point, and whether a live cell of the board is there. The cells have to
/// have a size.
pub fn draw_cursor(
    game_matrix: &GameMatrix,
    cell_size: u32,
    world_offset: (i32, i32),
    point: (i32, i32),
) -> (hover: Hover)
    requires
        cell_size > 0,
    ensures
        hover@ == spot_at(game_matrix@, cell_size as int, pixels(world_offset), pixels(point)),
{
    let (x, y) = window_pos_to_point_xy(cell_size, world_offset, point);
    proof {
        lemma_cell_of_pixel(point.0 as int, world_offset.0 as int, cell_size as int);
        lemma_cell_of_pixel(point.1 as int, world_offset.1 as int, cell_size as int);
        game_matrix.lemma_view_wf();
    }
    let pointer_shape = make_cell_shape(cell_size, world_offset, (x, y));
    let alive = match board_cell((x, y)) {
        Some((column, row)) => game_matrix.is_cell_alive(column, row),
        None => false,
    };
    Hover { x, y, shape: pointer_shape, alive }
}

} // verus!
