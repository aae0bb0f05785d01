//! Tile presets and the choice of one preset for a whole run.
//!
//! A tile is the block of source pixels that becomes one character cell.
//! Every preset keeps roughly the aspect ratio of a terminal glyph.

use vstd::prelude::*;

verus! {

/// Size of one tile in source pixels; `z` is always 1.
#[derive(Clone, Copy, Debug, PartialEq, Eq, Structural)]
pub struct WorkgroupSize {
    pub x: u32,
    pub y: u32,
    pub z: u32,
}

/// Pixel width of one glyph of the terminal font.
pub const FONT_WIDTH: u16 = 10;

/// Pixel height of one glyph of the terminal font.
pub const FONT_HEIGHT: u16 = 22;

/// The four tile presets, from the smallest footprint to the largest.
#[derive(Clone, Copy, Debug, PartialEq, Eq, Structural)]
pub enum TileVariant {
    Small,
    Medium,
    Large,
    Largest,
}

impl TileVariant {
    pub open spec fn spec_size(self) -> WorkgroupSize {
        match self {
            TileVariant::Small => WorkgroupSize { x: 4, y: 9, z: 1 },
            TileVariant::Medium => WorkgroupSize { x: 6, y: 13, z: 1 },
            TileVariant::Large => WorkgroupSize { x: 8, y: 18, z: 1 },
            TileVariant::Largest => WorkgroupSize { x: 10, y: 22, z: 1 },
        }
    }

    /// The tile size of this preset.
    pub fn size(&self) -> (r: WorkgroupSize)
        ensures
            r == self.spec_size(),
    {
        match self {
            TileVariant::Small => WorkgroupSize { x: 4, y: 9, z: 1 },
            TileVariant::Medium => WorkgroupSize { x: 6, y: 13, z: 1 },
            TileVariant::Large => WorkgroupSize { x: 8, y: 18, z: 1 },
            TileVariant::Largest => WorkgroupSize { x: 10, y: 22, z: 1 },
        }
    }

    pub open spec fn spec_index(self) -> usize {
        match self {
            TileVariant::Small => 0,
            TileVariant::Medium => 1,
            TileVariant::Large => 2,
            TileVariant::Largest => 3,
        }
    }

    /// Position of this preset in a table of per-preset resources.
    pub fn index(&self) -> (r: usize)
        ensures
            r == self.spec_index(),
            r < 4,
    {
        match self {
            TileVariant::Small => 0,
            TileVariant::Medium => 1,
            TileVariant::Large => 2,
            TileVariant::Largest => 3,
        }
    }
}

pub open spec fn small_tile() -> WorkgroupSize {
    TileVariant::Small.spec_size()
}

pub open spec fn medium_tile() -> WorkgroupSize {
    TileVariant::Medium.spec_size()
}

pub open spec fn large_tile() -> WorkgroupSize {
    TileVariant::Large.spec_size()
}

pub open spec fn largest_tile() -> WorkgroupSize {
    TileVariant::Largest.spec_size()
}

/// The four presets, from the smallest footprint to the largest.
pub open spec fn presets() -> Seq<WorkgroupSize> {
    seq![small_tile(), medium_tile(), large_tile(), largest_tile()]
}

/// True when `t` is one of the four presets.
pub open spec fn is_preset(t: WorkgroupSize) -> bool {
    presets().contains(t)
}

/// The presets as an array, from the smallest footprint to the largest.
pub fn tile_resolutions() -> (r: [WorkgroupSize; 4])
    ensures
        r@ == presets(),
{
    let r = [
        TileVariant::Small.size(),
        TileVariant::Medium.size(),
        TileVariant::Large.size(),
        TileVariant::Largest.size(),
    ];
    assert(r@ =~= presets());
    r
}

/// Whether a source extent of `dim` pixels, cut into tiles `tile_dim` pixels
/// wide, still fits into the cells that `max` pixels of glyphs `font` wide give.
pub open spec fn fits(dim: u16, tile_dim: u32, max: u16, font: u16) -> bool {
    dim as int / tile_dim as int <= max as int / font as int
}

/// The preset that one axis asks for: the largest that fits, and the largest
/// of all where none fits.
pub open spec fn axis_choice(dim: u16, max: u16, font: u16, horizontal: bool) -> WorkgroupSize {
    let d = |t: WorkgroupSize| if horizontal { t.x } else { t.y };
    if fits(dim, d(largest_tile()), max, font) {
        largest_tile()
    } else if fits(dim, d(large_tile()), max, font) {
        large_tile()
    } else if fits(dim, d(medium_tile()), max, font) {
        medium_tile()
    } else if fits(dim, d(small_tile()), max, font) {
        small_tile()
    } else {
        largest_tile()
    }
}

pub open spec fn max_u32(a: u32, b: u32) -> u32 {
    if a >= b { a } else { b }
}

/// The tile chosen for a source of `width` x `height` pixels shown in at most
/// `max_width` x `max_height` pixels of terminal glyphs.
pub open spec fn tile_res_spec(width: u16, height: u16, max_width: u16, max_height: u16) -> WorkgroupSize {
    let w = axis_choice(width, max_width, FONT_WIDTH, true);
    let h = axis_choice(height, max_height, FONT_HEIGHT, false);
    WorkgroupSize { x: max_u32(w.x, h.x), y: max_u32(w.y, h.y), z: 1 }
}

/// Scans the presets from the smallest to the largest footprint and keeps
/// the last one that fits, starting from the largest preset.
fn scan_axis(dim: u16, max: u16, font: u16, horizontal: bool) -> (r: WorkgroupSize)
    requires
        font > 0,
    ensures
        r == axis_choice(dim, max, font, horizontal),
{
    let resolutions = tile_resolutions();
    let budget = max / font;
    let mut chosen = TileVariant::Largest.size();
    let mut i: usize = 0;
    while i < 4
        invariant
            0 <= i <= 4,
            resolutions@ == presets(),
            budget == max / font,
            font > 0,
            chosen == axis_choice_upto(dim, max, font, horizontal, i as int),
        decreases 4 - i,
    {
        let res = resolutions[i];
        let tile_dim = if horizontal { res.x } else { res.y };
        assert(res == presets()[i as int]);
        assert(axis_choice_upto(dim, max, font, horizontal, i + 1) == if fits(dim, tile_dim, max, font) {
            res
        } else {
            axis_choice_upto(dim, max, font, horizontal, i as int)
        });
        assert(((dim as u32) / tile_dim <= budget as u32) == fits(dim, tile_dim, max, font));
        if (dim as u32) / tile_dim <= budget as u32 {
            chosen = res;
        }
        i = i + 1;
    }
    proof {
        reveal_with_fuel(axis_choice_upto, 5);
    }
    chosen
}

/// The scan of `scan_axis` after its first `n` presets.
pub open spec fn axis_choice_upto(dim: u16, max: u16, font: u16, horizontal: bool, n: int) -> WorkgroupSize
    decreases n,
{
    if n <= 0 {
        largest_tile()
    } else {
        let t = presets()[n - 1];
        let td = if horizontal { t.x } else { t.y };
        if fits(dim, td, max, font) {
            t
        } else {
            axis_choice_upto(dim, max, font, horizontal, n - 1)
        }
    }
}

/// Chooses one tile size for a whole run from the source size and the
/// terminal area it may use, axis by axis, then component-wise the larger.
pub fn get_tile_res(width: u16, height: u16, max_width: u16, max_height: u16) -> (r: WorkgroupSize)
    ensures
        r == tile_res_spec(width, height, max_width, max_height),
        is_preset(r),
{
    let calc_width = scan_axis(width, max_width, FONT_WIDTH, true);
    let calc_height = scan_axis(height, max_height, FONT_HEIGHT, false);
    let r = WorkgroupSize {
        x: if calc_width.x >= calc_height.x { calc_width.x } else { calc_height.x },
        y: if calc_width.y >= calc_height.y { calc_width.y } else { calc_height.y },
        z: 1,
    };
    proof {
        let p = presets();
        assert(r == p[0] || r == p[1] || r == p[2] || r == p[3]);
    }
    r
}

/// The preset whose compute program serves tiles `tile` pixels wide: the
/// one of that width, and the largest for any other width.
pub open spec fn variant_spec(tile: WorkgroupSize) -> TileVariant {
    if tile.x == 4 {
        TileVariant::Small
    } else if tile.x == 6 {
        TileVariant::Medium
    } else if tile.x == 8 {
        TileVariant::Large
    } else {
        TileVariant::Largest
    }
}

/// Picks the compute program variant for a chosen tile size.
pub fn variant_of(tile: WorkgroupSize) -> (r: TileVariant)
    ensures
        r == variant_spec(tile),
        is_preset(tile) ==> r.spec_size() == tile,
{
    proof {
        if is_preset(tile) {
            let p = presets();
            assert(tile == p[0] || tile == p[1] || tile == p[2] || tile == p[3]);
        }
    }
    if tile.x == 4 {
        TileVariant::Small
    } else if tile.x == 6 {
        TileVariant::Medium
    } else if tile.x == 8 {
        TileVariant::Large
    } else {
        TileVariant::Largest
    }
}

/// Under the rule of `axis_choice`, every axis settles on the largest
/// preset: a smaller tile never fits where a larger one does not.
pub proof fn lemma_axis_choice_is_largest(dim: u16, max: u16, font: u16, horizontal: bool)
    requires
        font > 0,
    ensures
        axis_choice(dim, max, font, horizontal) == largest_tile(),
{
    let d = dim as int;
    if horizontal {
        vstd::arithmetic::div_mod::lemma_div_is_ordered_by_denominator(d, 4, 10);
        vstd::arithmetic::div_mod::lemma_div_is_ordered_by_denominator(d, 6, 10);
        vstd::arithmetic::div_mod::lemma_div_is_ordered_by_denominator(d, 8, 10);
    } else {
        vstd::arithmetic::div_mod::lemma_div_is_ordered_by_denominator(d, 9, 22);
        vstd::arithmetic::div_mod::lemma_div_is_ordered_by_denominator(d, 13, 22);
        vstd::arithmetic::div_mod::lemma_div_is_ordered_by_denominator(d, 18, 22);
    }
}

/// Tile selection is monotonic: with the source fixed, a larger terminal
/// area never gives a smaller tile on either axis.
pub proof fn lemma_tile_res_monotonic(
    width: u16,
    height: u16,
    max_width: u16,
    max_height: u16,
    more_width: u16,
    more_height: u16,
)
    requires
        max_width <= more_width,
        max_height <= more_height,
    ensures
        tile_res_spec(width, height, more_width, more_height).x >= tile_res_spec(width, height, max_width, max_height).x,
        tile_res_spec(width, height, more_width, more_height).y >= tile_res_spec(width, height, max_width, max_height).y,
{
    lemma_axis_choice_is_largest(width, max_width, FONT_WIDTH, true);
    lemma_axis_choice_is_largest(width, more_width, FONT_WIDTH, true);
    lemma_axis_choice_is_largest(height, max_height, FONT_HEIGHT, false);
    lemma_axis_choice_is_largest(height, more_height, FONT_HEIGHT, false);
}

} // verus!
