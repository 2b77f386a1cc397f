//! The launch plan of a fused RMSNorm kernel: one thread per row.

use vstd::prelude::*;

verus! {

/// Threads, and so rows, per cube.
pub const CUBE_ROWS: u32 = 64;

/// The most rows a launch can hold: a thread knows its row by a 32-bit position.
pub const MAX_ROWS: u64 = 0x1_0000_0000;

/// What launching the kernel takes.
#[derive(Debug, Clone, Copy, PartialEq, Eq, Structural)]
pub struct Launch {
    /// Rows of the output.
    pub n_rows: usize,
    /// Columns of the output.
    pub dim: usize,
    /// Bytes of the output buffer.
    pub bytes: usize,
    /// Cubes to launch.
    pub cubes: u32,
}

/// The cubes that `n_rows` rows need.
pub open spec fn cubes_needed(n_rows: int) -> int {
    (n_rows + CUBE_ROWS - 1) / CUBE_ROWS as int
}

/// Plan a launch over a tensor of shape `shape` whose elements take `size` bytes:
/// a fresh output of as many rows as its first dimension and as many columns as
/// its last, and one cube per block of rows.
pub fn rms_norm(shape: &Vec<usize>, size: usize) -> (launch: Launch)
    requires
        shape@.len() > 0,
        shape@[0] * shape@.last() <= usize::MAX,
        shape@[0] * shape@.last() * size <= usize::MAX,
        shape@[0] <= MAX_ROWS,
    ensures
        launch.n_rows == shape@[0],
        launch.dim == shape@.last(),
        launch.bytes == shape@[0] * shape@.last() * size,
        launch.cubes == cubes_needed(shape@[0] as int),
        launch.cubes * 64 >= launch.n_rows,
        launch.cubes > 0 ==> (launch.cubes - 1) * 64 < launch.n_rows,
{
    let n_rows: usize = shape[0];
    let dim: usize = shape[shape.len() - 1];
    let whole: usize = n_rows / 64;
    let cubes: usize = if n_rows % 64 == 0 {
        whole
    } else {
        whole + 1
    };
    Launch { n_rows, dim, bytes: n_rows * dim * size, cubes: cubes as u32 }
}

/// Where the row of the thread at `position` begins in the output; `None` for a
/// thread behind the last row, which stops at once.
pub fn rms_norm_kernel(launch: &Launch, position: u32) -> (base: Option<usize>)
    requires
        launch.n_rows * launch.dim <= usize::MAX,
    ensures
        base is None <==> position >= launch.n_rows,
        base matches Some(base) ==> base == position * launch.dim && base + launch.dim
            <= launch.n_rows * launch.dim,
{
    if position as u64 >= launch.n_rows as u64 {
        return None;
    }
    proof {
        let (row, rows, dim) = (position as int, launch.n_rows as int, launch.dim as int);
        assert(row * dim + dim <= rows * dim && row * dim >= 0) by (nonlinear_arith)
            requires
                0 <= row,
                row + 1 <= rows,
                dim >= 0,
        ;
    }
    Some(position as usize * launch.dim)
}

/// Every row has a thread: its number is a position, and that position is inside
/// the cubes launched. No cube is without a row.
pub proof fn every_row_has_a_thread(n_rows: nat, row: nat)
    requires
        n_rows <= MAX_ROWS,
        row < n_rows,
    ensures
        row <= u32::MAX,
        row < cubes_needed(n_rows as int) * CUBE_ROWS,
        (cubes_needed(n_rows as int) - 1) * CUBE_ROWS < n_rows,
{
}

/// Every cell of the output belongs to the row of exactly one thread.
pub proof fn every_cell_has_one_thread(n_rows: nat, dim: nat, cell: nat, row: nat)
    requires
        cell < n_rows * dim,
    ensures
        dim > 0,
        cell / dim < n_rows,
        row * dim <= cell < row * dim + dim <==> row == cell / dim,
{
    let (rows, d, c) = (n_rows as int, dim as int, cell as int);
    if d == 0 {
        vstd::arithmetic::mul::lemma_mul_by_zero_is_zero(rows);
    }
    vstd::arithmetic::div_mod::lemma_fundamental_div_mod(c, d);
    let q = c / d;
    assert(q < rows) by (nonlinear_arith)
        requires
            d > 0,
            c < rows * d,
            c == d * q + c % d,
            0 <= c % d,
    ;
    assert(q * d <= c < q * d + d) by (nonlinear_arith)
        requires
            c == d * q + c % d,
            0 <= c % d < d,
    ;
    if row * dim <= cell < row * dim + dim {
        vstd::arithmetic::div_mod::lemma_fundamental_div_mod_converse(
            c,
            d,
            row as int,
            c - row * d,
        );
    }
}

} // verus!
