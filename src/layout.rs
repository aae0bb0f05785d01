//! Sizes that the stages of one frame must agree on.
//!
//! The quantize stage reads the texture with its width padded to a multiple
//! of 64, and buffer copies pad every row to a multiple of 256 bytes. The
//! stage that writes a buffer and the stage that reads it take both paddings
//! from here, so that no row shifts against the next.

use vstd::prelude::*;
use crate::align::{align_up, ceil_div, align_buffer_size};
use crate::tile::{WorkgroupSize, is_preset, presets};

verus! {

/// Granularity, in pixels, of the texture width that the quantize stage reads.
pub const TEXTURE_WIDTH_ALIGN: u64 = 64;

/// Granularity, in bytes, of the rows of a texture-to-buffer copy and of
/// a buffer's size.
pub const COPY_ALIGN: u64 = 256;

/// Bytes per pixel of an RGBA8 texture, and bytes per code of the code buffer.
pub const WORD_BYTES: u32 = 4;

/// The sizes of one frame for one tile size.
#[derive(Clone, Copy, Debug, PartialEq, Eq, Structural)]
pub struct FrameLayout {
    /// Texture width in pixels.
    pub width: u32,
    /// Texture height in pixels.
    pub height: u32,
    /// Texture width padded to a multiple of 64.
    pub aligned_width: u32,
    /// Codes, hence characters, in one row of the frame.
    pub row_width: u32,
    /// Rows of the frame.
    pub rows: u32,
    /// Workgroups of the quantize stage along x.
    pub dispatch_x: u32,
    /// Workgroups of the quantize stage along y.
    pub dispatch_y: u32,
    /// Codes that one frame holds: `row_width * rows`.
    pub code_count: u32,
    /// Size in bytes of the code buffer and of its host-readable copy.
    pub code_buffer_size: u64,
    /// Row pitch in bytes of a texture-to-buffer copy.
    pub bytes_per_row: u32,
    /// Size in bytes of the buffer that receives a whole texture.
    pub texture_buffer_size: u64,
}

pub open spec fn layout_spec(width: u16, height: u16, tile: WorkgroupSize) -> FrameLayout {
    let aw = align_up(width as nat, 64);
    let row_width = ceil_div(aw, tile.x as nat);
    let rows = height as nat / tile.y as nat;
    let code_count = row_width * rows;
    let bytes_per_row = align_up(4 * width as nat, 256);
    FrameLayout {
        width: width as u32,
        height: height as u32,
        aligned_width: aw as u32,
        row_width: row_width as u32,
        rows: rows as u32,
        dispatch_x: (aw / tile.x as nat) as u32,
        dispatch_y: rows as u32,
        code_count: code_count as u32,
        code_buffer_size: align_up(4 * code_count, 256) as u64,
        bytes_per_row: bytes_per_row as u32,
        texture_buffer_size: (bytes_per_row * height as nat) as u64,
    }
}

/// Computes every size of a frame of `width` x `height` pixels cut into
/// tiles of `tile`.
pub fn frame_layout(width: u16, height: u16, tile: WorkgroupSize) -> (r: FrameLayout)
    requires
        is_preset(tile),
    ensures
        r == layout_spec(width, height, tile),
        r.row_width as nat * r.rows as nat == r.code_count as nat,
{
    proof {
        let p = presets();
        assert(tile == p[0] || tile == p[1] || tile == p[2] || tile == p[3]);
    }
    let aw = align_buffer_size(width as u32, TEXTURE_WIDTH_ALIGN);
    assert(aw < 65536 + 64);
    let aw = aw as u32;
    let row_width = align_buffer_size(aw, tile.x as u64);
    assert(row_width < aw + tile.x);
    let row_width = (row_width / tile.x as u64) as u32;
    proof {
        lemma_align_up_div(aw as nat, tile.x as nat);
    }
    let rows = height as u32 / tile.y;
    assert(row_width <= 16400 && rows <= 16384);
    assert(row_width as nat * rows as nat <= 16400 * 16384) by (nonlinear_arith)
        requires row_width <= 16400, rows <= 16384;
    let code_count = row_width * rows;
    let code_buffer_size = align_buffer_size(WORD_BYTES * code_count, COPY_ALIGN);
    let bytes_per_row = align_buffer_size(WORD_BYTES * width as u32, COPY_ALIGN);
    assert(bytes_per_row < 4 * 65536 + 256);
    let bytes_per_row = bytes_per_row as u32;
    assert(bytes_per_row as nat * height as nat <= (4 * 65536 + 256) * 65536) by (nonlinear_arith)
        requires bytes_per_row < 4 * 65536 + 256, height <= 65535;
    let texture_buffer_size = bytes_per_row as u64 * height as u64;
    FrameLayout {
        width: width as u32,
        height: height as u32,
        aligned_width: aw,
        row_width,
        rows,
        dispatch_x: aw / tile.x,
        dispatch_y: rows,
        code_count,
        code_buffer_size,
        bytes_per_row,
        texture_buffer_size,
    }
}

/// Rounding up to a multiple of `b` and dividing by `b` is rounding the
/// quotient up.
pub proof fn lemma_align_up_div(a: nat, b: nat)
    requires
        b > 0,
    ensures
        align_up(a, b) / b == ceil_div(a, b),
{
    assert(ceil_div(a, b) * b / b == ceil_div(a, b)) by (nonlinear_arith)
        requires b > 0;
}

/// For every preset and every frame size, the row width is the padded
/// width rounded up to whole tiles, divided by the tile width; the codes of a
/// frame are that row width times the rows; and the code buffer, a multiple
/// of the copy granularity, holds all of them.
pub proof fn lemma_code_count_matches(width: u16, height: u16, tile: WorkgroupSize)
    requires
        is_preset(tile),
    ensures
        ({
            let l = layout_spec(width, height, tile);
            &&& l.row_width as nat == align_up(align_up(width as nat, 64), tile.x as nat) / (tile.x as nat)
            &&& l.rows as nat == height as nat / tile.y as nat
            &&& l.code_count as nat == l.row_width as nat * l.rows as nat
            &&& 4 * l.code_count as nat <= l.code_buffer_size as nat
            &&& l.code_buffer_size as nat % 256 == 0
        }),
{
    let p = presets();
    assert(tile == p[0] || tile == p[1] || tile == p[2] || tile == p[3]);
    let aw = align_up(width as nat, 64);
    assert(aw < 65536 + 64) by (nonlinear_arith)
        requires aw == ((width as nat + 63) as nat / 64) * 64, width < 65536;
    lemma_align_up_div(aw, tile.x as nat);
    let rw = ceil_div(aw, tile.x as nat);
    assert(rw <= aw) by (nonlinear_arith)
        requires rw == ((aw + tile.x - 1) as nat / tile.x as nat), tile.x >= 4;
    let rows = height as nat / tile.y as nat;
    assert(rows <= 65535);
    assert(rw * rows <= 65600 * 65535 / 9 + 65600) by (nonlinear_arith)
        requires rw <= 65600, rows == height as nat / tile.y as nat, tile.y >= 9, height <= 65535;
    let cc = rw * rows;
    let size = align_up(4 * cc, 256);
    assert(4 * cc <= size && size % 256 == 0 && size < 4 * cc + 256) by (nonlinear_arith)
        requires size == ((4 * cc + 255) as nat / 256) * 256;
}

} // verus!
