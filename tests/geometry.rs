use mofetch::align::align_buffer_size;
use mofetch::layout::frame_layout;
use mofetch::tile::{get_tile_res, tile_resolutions, variant_of, TileVariant, WorkgroupSize};

fn largest() -> WorkgroupSize {
    WorkgroupSize { x: 10, y: 22, z: 1 }
}

#[test]
fn align_rounds_up_to_multiple() {
    assert_eq!(align_buffer_size(0, 64), 0);
    assert_eq!(align_buffer_size(1, 256), 256);
    assert_eq!(align_buffer_size(256, 256), 256);
    assert_eq!(align_buffer_size(257, 256), 512);
    assert_eq!(align_buffer_size(65, 64), 128);
    assert_eq!(align_buffer_size(300, 1), 300);
    assert_eq!(align_buffer_size(5, u64::MAX), u64::MAX);
}

#[test]
fn presets_in_order() {
    let r = tile_resolutions();
    assert_eq!(r[0], WorkgroupSize { x: 4, y: 9, z: 1 });
    assert_eq!(r[1], WorkgroupSize { x: 6, y: 13, z: 1 });
    assert_eq!(r[2], WorkgroupSize { x: 8, y: 18, z: 1 });
    assert_eq!(r[3], largest());
}

#[test]
fn tile_choice_prefers_the_largest_fitting_preset() {
    // Everything fits: the largest preset wins.
    assert_eq!(get_tile_res(100, 100, 2000, 2000), largest());
    // Nothing fits: fall back to the largest preset.
    assert_eq!(get_tile_res(4000, 4000, 10, 22), largest());
    assert_eq!(get_tile_res(0, 0, 0, 0), largest());
}

#[test]
fn tile_choice_is_monotonic() {
    let bounds: [(u16, u16); 5] = [(0, 0), (100, 50), (640, 480), (1920, 1080), (u16::MAX, u16::MAX)];
    for w in [1u16, 64, 640, 1920, 4000] {
        for h in [1u16, 48, 480, 1080, 3000] {
            for a in 0..bounds.len() {
                for b in a..bounds.len() {
                    let small = get_tile_res(w, h, bounds[a].0, bounds[a].1);
                    let big = get_tile_res(w, h, bounds[b].0, bounds[b].1);
                    assert!(big.x >= small.x && big.y >= small.y);
                }
            }
        }
    }
}

#[test]
fn variant_follows_tile_width() {
    assert_eq!(variant_of(WorkgroupSize { x: 4, y: 9, z: 1 }), TileVariant::Small);
    assert_eq!(variant_of(WorkgroupSize { x: 6, y: 13, z: 1 }), TileVariant::Medium);
    assert_eq!(variant_of(WorkgroupSize { x: 8, y: 18, z: 1 }), TileVariant::Large);
    assert_eq!(variant_of(largest()), TileVariant::Largest);
    assert_eq!(TileVariant::Medium.size(), WorkgroupSize { x: 6, y: 13, z: 1 });
    assert_eq!(TileVariant::Large.index(), 2);
}

#[test]
fn layout_of_small_tiles() {
    let l = frame_layout(100, 90, WorkgroupSize { x: 4, y: 9, z: 1 });
    assert_eq!(l.aligned_width, 128);
    assert_eq!(l.row_width, 32);
    assert_eq!(l.rows, 10);
    assert_eq!(l.dispatch_x, 32);
    assert_eq!(l.dispatch_y, 10);
    assert_eq!(l.code_count, 320);
    assert_eq!(l.code_buffer_size, 1280);
    assert_eq!(l.bytes_per_row, 512);
    assert_eq!(l.texture_buffer_size, 512 * 90);
}

#[test]
fn layout_rounds_rows_up_for_odd_tiles() {
    let l = frame_layout(64, 26, WorkgroupSize { x: 6, y: 13, z: 1 });
    assert_eq!(l.aligned_width, 64);
    assert_eq!(l.row_width, 11);
    assert_eq!(l.dispatch_x, 10);
    assert_eq!(l.rows, 2);
    assert_eq!(l.code_count, 22);
    assert_eq!(l.code_buffer_size, 256);
}

#[test]
fn row_width_matches_code_count_for_every_preset() {
    for t in tile_resolutions() {
        for w in [1u16, 63, 64, 65, 100, 641, 1920, u16::MAX] {
            for h in [0u16, 9, 100, 1080, u16::MAX] {
                let l = frame_layout(w, h, t);
                let aligned = align_buffer_size(w as u32, 64);
                let padded = align_buffer_size(aligned as u32, t.x as u64);
                assert_eq!(l.row_width as u64, padded / t.x as u64);
                assert_eq!(l.rows, h as u32 / t.y);
                assert_eq!(l.code_count as u64, l.row_width as u64 * l.rows as u64);
                assert!(l.code_buffer_size >= 4 * l.code_count as u64);
                assert_eq!(l.code_buffer_size % 256, 0);
            }
        }
    }
}
