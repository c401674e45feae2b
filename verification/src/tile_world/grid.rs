//! Cells, tile values and the arithmetic that splits a cell coordinate into
//! the chunk that holds it and the offset inside that chunk.

use vstd::prelude::*;

verus! {

/// A cell of the grid, addressed by its integer coordinates.
#[derive(Copy, Clone, Debug, PartialEq, Eq, Hash, Structural)]
pub struct GridCoord {
    pub x: i64,
    pub y: i64,
}

/// What occupies one cell.
#[derive(Copy, Clone, Debug, PartialEq, Eq, Hash, Structural)]
pub enum TileValue {
    Empty,
    Rock,
    /// Marks a generated value that fell outside the two generated kinds.
    Error,
    /// An object kind that covers more than one cell.
    HabModule,
    /// A cell covered by an object whose anchor cell is the given one.
    Subtile(GridCoord),
}

/// Side length of a chunk in cells. A power of two.
pub const PARTITION_SIZE: u8 = 16;

/// Number of cells in one chunk.
pub const PARTITION_AREA: usize = 256;

/// Number of sparse entries above which a chunk keeps its edits densely: a
/// third of the cells of a chunk.
pub const DENSE_SWITCH_POINT: u32 = 85;

/// Offset of a coordinate inside its chunk, in `0..16`.
pub open spec fn local_offset(v: int) -> int {
    v % 16
}

/// The smallest coordinate of the chunk that holds `v`.
pub open spec fn chunk_floor(v: int) -> int {
    v - v % 16
}

/// The origin of the chunk that holds `pos`.
pub open spec fn chunk_origin(pos: GridCoord) -> GridCoord {
    GridCoord { x: chunk_floor(pos.x as int) as i64, y: chunk_floor(pos.y as int) as i64 }
}

/// The key under which a chunk stores the edit of `pos` while it is sparse:
/// the column offset in the high byte, the row offset in the low byte.
pub open spec fn local_key(pos: GridCoord) -> u16 {
    (local_offset(pos.x as int) * 256 + local_offset(pos.y as int)) as u16
}

/// Whether `key` is the local key of some cell.
pub open spec fn is_local_key(key: u16) -> bool {
    key / 256 < 16 && key % 256 < 16
}

/// The slot of the dense array that belongs to a local key.
pub open spec fn dense_index(key: u16) -> int {
    key / 256 + 16 * (key % 256)
}

/// A cell as one integer: both coordinates shifted to be non-negative, the
/// column in the high 64 bits and the row in the low 64 bits.
pub open spec fn cell_key(pos: GridCoord) -> u128 {
    ((pos.x - i64::MIN) * 0x1_0000_0000_0000_0000 + (pos.y - i64::MIN)) as u128
}

/// The cell that `cell_key` maps to `key`.
pub open spec fn key_cell(key: u128) -> GridCoord {
    GridCoord {
        x: (key / 0x1_0000_0000_0000_0000 + i64::MIN) as i64,
        y: (key % 0x1_0000_0000_0000_0000 + i64::MIN) as i64,
    }
}

/// Whether `pos` lies in the rectangle that starts at `top_left` and spans
/// `size` cells, the far edges excluded.
pub open spec fn in_rect(pos: GridCoord, top_left: GridCoord, size: GridCoord) -> bool {
    &&& top_left.x <= pos.x < top_left.x + size.x
    &&& top_left.y <= pos.y < top_left.y + size.y
}

/// The cells of the rectangle that starts at `top_left` and spans `size`
/// cells, row by row, each row from its left end. A size that is not positive
/// both ways spans no cell.
pub open spec fn area_cells(top_left: GridCoord, size: GridCoord) -> Seq<GridCoord> {
    if size.x <= 0 || size.y <= 0 {
        Seq::empty()
    } else {
        Seq::new(
            (size.x * size.y) as nat,
            |i: int|
                GridCoord { x: (top_left.x + i % (size.x as int)) as i64, y: (top_left.y + i / (
                size.x as int)) as i64 },
        )
    }
}

/// The place of the cell `(x, y)` in `area_cells(top_left, size)`.
pub open spec fn scan_index(top_left: GridCoord, size: GridCoord, x: int, y: int) -> int {
    (y - top_left.y) * size.x + (x - top_left.x)
}

/// The cells of the rectangle that a walk, row by row, reaches before column
/// `x` of row `y`.
pub open spec fn cells_before(top_left: GridCoord, size: GridCoord, x: int, y: int) -> Seq<
    GridCoord,
> {
    if size.x <= 0 || size.y <= 0 {
        Seq::empty()
    } else {
        area_cells(top_left, size).take(scan_index(top_left, size, x, y))
    }
}

/// `key_cell` gives back the cell of a key, so distinct cells have distinct
/// keys.
pub proof fn lemma_cell_key_round_trip(pos: GridCoord)
    ensures
        key_cell(cell_key(pos)) == pos,
{
}

/// Every key is the key of a cell: that of the cell which `key_cell` gives.
pub proof fn lemma_key_cell_round_trip(key: u128)
    ensures
        cell_key(key_cell(key)) == key,
{
}

/// Two cells share a chunk and a local key only if they are the same cell.
pub proof fn lemma_chunk_split_is_injective(a: GridCoord, b: GridCoord)
    requires
        chunk_origin(a) == chunk_origin(b),
        local_key(a) == local_key(b),
    ensures
        a == b,
{
}

/// A local key is a valid key, and its two bytes are the two offsets.
pub proof fn lemma_local_key_parts(pos: GridCoord)
    ensures
        is_local_key(local_key(pos)),
        local_key(pos) / 256 == local_offset(pos.x as int),
        local_key(pos) % 256 == local_offset(pos.y as int),
        0 <= dense_index(local_key(pos)) < 256,
{
}

/// A cell of a rectangle stands in `area_cells` at its `scan_index`, and the
/// index of a cell tells its column and row.
pub proof fn lemma_area_cells_index(top_left: GridCoord, size: GridCoord, x: int, y: int)
    requires
        top_left.x <= x < top_left.x + size.x <= i64::MAX,
        top_left.y <= y < top_left.y + size.y <= i64::MAX,
    ensures
        0 <= scan_index(top_left, size, x, y) < area_cells(top_left, size).len(),
        area_cells(top_left, size)[scan_index(top_left, size, x, y)] == (GridCoord {
            x: x as i64,
            y: y as i64,
        }),
{
    let width = size.x as int;
    let row = y - top_left.y;
    let column = x - top_left.x;
    let index = row * width + column;
    assert(0 <= row * width && (row + 1) * width <= size.y * width && (row + 1) * width == row
        * width + width) by (nonlinear_arith)
        requires
            0 <= row < size.y,
            0 < width,
    ;
    assert(size.x * size.y == size.y * width) by (nonlinear_arith)
        requires
            width == size.x,
    ;
    vstd::arithmetic::div_mod::lemma_fundamental_div_mod_converse(index, width, row, column);
}

/// A scan starts at index zero, the end of a row is the start of the next,
/// and the end of the last row is the end of `area_cells`.
pub proof fn lemma_scan_index_rows(top_left: GridCoord, size: GridCoord, y: int)
    requires
        size.x > 0,
        top_left.y <= y < top_left.y + size.y,
    ensures
        scan_index(top_left, size, top_left.x as int, top_left.y as int) == 0,
        0 <= scan_index(top_left, size, top_left.x as int, y),
        scan_index(top_left, size, top_left.x as int, y + 1) == scan_index(
            top_left,
            size,
            top_left.x + size.x,
            y,
        ),
        scan_index(top_left, size, top_left.x as int, y + 1) <= area_cells(top_left, size).len(),
        scan_index(top_left, size, top_left.x as int, top_left.y + size.y) == area_cells(
            top_left,
            size,
        ).len(),
{
    let width = size.x as int;
    let row = y - top_left.y;
    assert(0 * width == 0 && 0 <= row * width && (row + 1) * width == row * width + width && (row
        + 1) * width <= size.y * width && size.y * width == width * size.y) by (nonlinear_arith)
        requires
            0 <= row < size.y,
            0 < width,
    ;
}

/// A walk over a rectangle reaches every cell of it, and each of them once:
/// the cells of `area_cells` are the cells of the rectangle, none of them twice.
pub proof fn lemma_area_cells_cover(top_left: GridCoord, size: GridCoord)
    requires
        top_left.x + size.x <= i64::MAX,
        top_left.y + size.y <= i64::MAX,
    ensures
        forall|pos: GridCoord|
            in_rect(pos, top_left, size) <==> #[trigger] area_cells(top_left, size).contains(pos),
        area_cells(top_left, size).no_duplicates(),
{
    let cells = area_cells(top_left, size);
    if size.x > 0 && size.y > 0 {
        let width = size.x as int;
        assert forall|i: int| 0 <= i < cells.len() implies 0 <= #[trigger] (i % width) < width
            && 0 <= i / width < size.y && i == (i / width) * width + i % width by {
            vstd::arithmetic::div_mod::lemma_fundamental_div_mod(i, width);
            vstd::arithmetic::div_mod::lemma_mod_bound(i, width);
            assert(0 <= i / width < size.y) by (nonlinear_arith)
                requires
                    0 <= i < size.x * size.y,
                    width == size.x,
                    0 < width,
                    i == width * (i / width) + i % width,
                    0 <= i % width < width,
            ;
            assert((i / width) * width == width * (i / width)) by (nonlinear_arith);
        }
        assert forall|pos: GridCoord| in_rect(pos, top_left, size) implies cells.contains(
            pos,
        ) by {
            lemma_area_cells_index(top_left, size, pos.x as int, pos.y as int);
            assert(cells[scan_index(top_left, size, pos.x as int, pos.y as int)] == pos);
        }
        assert forall|pos: GridCoord| cells.contains(pos) implies in_rect(pos, top_left, size) by {
            let i = choose|i: int| 0 <= i < cells.len() && cells[i] == pos;
            assert(0 <= i % width < width);
        }
        assert forall|i: int, j: int| 0 <= i < cells.len() && 0 <= j < cells.len() && i
            != j implies cells[i] != cells[j] by {
            assert(0 <= i % width < width);
            assert(0 <= j % width < width);
        }
    } else {
        assert forall|pos: GridCoord| cells.contains(pos) implies in_rect(pos, top_left, size) by {}
    }
}

/// A walk has reached no cell when it starts.
pub proof fn lemma_walk_start(top_left: GridCoord, size: GridCoord)
    ensures
        cells_before(top_left, size, top_left.x as int, top_left.y as int) == Seq::<
            GridCoord,
        >::empty(),
{
    if size.x > 0 && size.y > 0 {
        lemma_scan_index_rows(top_left, size, top_left.y as int);
        assert(area_cells(top_left, size).take(0) =~= Seq::<GridCoord>::empty());
    }
}

/// A walk that stands at a cell of the rectangle reaches that cell next.
pub proof fn lemma_walk_step(top_left: GridCoord, size: GridCoord, x: int, y: int)
    requires
        top_left.x <= x < top_left.x + size.x <= i64::MAX,
        top_left.y <= y < top_left.y + size.y <= i64::MAX,
    ensures
        cells_before(top_left, size, x, y).len() == scan_index(top_left, size, x, y),
        cells_before(top_left, size, x + 1, y) == cells_before(top_left, size, x, y).push(
            GridCoord { x: x as i64, y: y as i64 },
        ),
{
    let cells = area_cells(top_left, size);
    let index = scan_index(top_left, size, x, y);
    lemma_area_cells_index(top_left, size, x, y);
    assert(cells.take(index + 1) =~= cells.take(index).push(cells[index]));
}

/// A walk that has reached the end of a row stands at the start of the next.
pub proof fn lemma_walk_next_row(top_left: GridCoord, size: GridCoord, x: int, y: int)
    requires
        top_left.y <= y < top_left.y + size.y,
        size.x > 0 ==> x == top_left.x + size.x,
    ensures
        cells_before(top_left, size, top_left.x as int, y + 1) == cells_before(
            top_left,
            size,
            x,
            y,
        ),
{
    if size.x > 0 {
        lemma_scan_index_rows(top_left, size, y);
    }
}

/// A walk that has reached the end of the last row has reached every cell.
pub proof fn lemma_walk_end(top_left: GridCoord, size: GridCoord, y: int)
    requires
        size.y > 0 ==> y == top_left.y + size.y,
    ensures
        cells_before(top_left, size, top_left.x as int, y) == area_cells(top_left, size),
{
    if size.x > 0 && size.y > 0 {
        let cells = area_cells(top_left, size);
        lemma_scan_index_rows(top_left, size, top_left.y as int);
        assert(cells.take(cells.len() as int) =~= cells);
    }
}

/// The offset of `v` inside its chunk, computed by masking.
pub fn local_offset_of(v: i64) -> (offset: u8)
    ensures
        offset == local_offset(v as int),
{
    let masked: i64 = v & (PARTITION_SIZE as i64 - 1);
    assert(masked == v % 16 && 0 <= masked < 16) by (bit_vector)
        requires
            masked == v & 15,
    ;
    masked as u8
}

/// The sparse key of a pair of offsets.
pub fn sparse_key_of(offset_x: u8, offset_y: u8) -> (key: u16)
    requires
        offset_x < 16,
        offset_y < 16,
    ensures
        key == offset_x * 256 + offset_y,
        is_local_key(key),
{
    let key: u16 = ((offset_x as u16) << 8) | (offset_y as u16);
    assert(key == offset_x * 256 + offset_y) by (bit_vector)
        requires
            offset_x < 16,
            offset_y < 16,
            key == ((offset_x as u16) << 8) | (offset_y as u16),
    ;
    key
}

/// The origin of the chunk that holds `pos`, computed by masking.
pub fn chunk_origin_of(pos: &GridCoord) -> (origin: GridCoord)
    ensures
        origin == chunk_origin(*pos),
{
    let x: i64 = pos.x;
    let y: i64 = pos.y;
    let partition_x: i64 = x & !(PARTITION_SIZE as i64 - 1);
    let partition_y: i64 = y & !(PARTITION_SIZE as i64 - 1);
    assert(partition_x == x - x % 16) by (bit_vector)
        requires
            partition_x == x & !15i64,
    ;
    assert(partition_y == y - y % 16) by (bit_vector)
        requires
            partition_y == y & !15i64,
    ;
    GridCoord { x: partition_x, y: partition_y }
}

/// The integer key of a cell.
pub fn cell_key_of(pos: &GridCoord) -> (key: u128)
    ensures
        key == cell_key(*pos),
{
    let column: u128 = (pos.x as i128 - i64::MIN as i128) as u128;
    let row: u128 = (pos.y as i128 - i64::MIN as i128) as u128;
    column * 0x1_0000_0000_0000_0000 + row
}

} // verus!
