use mofetch::probe::{chars_of, parse_dimensions, scaled_resolution, FFmpegReturn, FfmpegConfig};
use mofetch::session::{cache_file_name, choose_cache, kind_for_frames, CacheChoice, CacheConflict, CacheKind};

#[test]
fn probe_output_parses() {
    assert_eq!(parse_dimensions("1920x1080\n"), Some((1920, 1080)));
    assert_eq!(parse_dimensions("640x480"), Some((640, 480)));
    assert_eq!(parse_dimensions("640x 480 \r\n"), Some((640, 480)));
    assert_eq!(parse_dimensions("640x480x2"), Some((640, 480)));
    assert_eq!(parse_dimensions("640"), None);
    assert_eq!(parse_dimensions("x480"), None);
    assert_eq!(parse_dimensions("70000x480"), None);
    assert_eq!(parse_dimensions("64a0x480"), None);
    assert_eq!(chars_of("ab"), vec!['a', 'b']);
}

#[test]
fn scaling_keeps_aspect_ratio() {
    assert_eq!(scaled_resolution(100, 100, 200, 200), None);
    // Bounds wider than the source: height pinned to the bound.
    assert_eq!(scaled_resolution(1000, 1000, 800, 400), Some((400, 400)));
    // Bounds taller than the source: width pinned to the bound.
    assert_eq!(scaled_resolution(1920, 1080, 960, 1000), Some((960, 540)));
    assert_eq!(scaled_resolution(0, 500, 0, 100), Some((0, 0)));
}

#[test]
fn extractor_report() {
    let r = FFmpegReturn { frame_count: 1, width: 10, height: 20 };
    assert!(r.is_image());
    let r = FFmpegReturn { frame_count: 24, width: 10, height: 20 };
    assert!(!r.is_image());
    let fps: u16 = 24;
    let c = FfmpegConfig { input_path: "a.mp4", fps: &fps };
    assert_eq!(*c.fps, 24);
}

#[test]
fn cache_selection() {
    assert_eq!(choose_cache(false, false, false), Ok(CacheChoice::Create));
    assert_eq!(choose_cache(true, false, false), Ok(CacheChoice::Reuse(CacheKind::Animated)));
    assert_eq!(choose_cache(false, true, false), Ok(CacheChoice::Reuse(CacheKind::Still)));
    assert_eq!(choose_cache(true, true, false), Err(CacheConflict));
    assert_eq!(choose_cache(true, true, true), Ok(CacheChoice::Create));
    assert_eq!(kind_for_frames(1), CacheKind::Still);
    assert_eq!(kind_for_frames(12), CacheKind::Animated);
}

#[test]
fn cache_names() {
    assert_eq!(cache_file_name("/home/u/clips/cat.mp4", CacheKind::Animated), "cat.mp4.afb");
    assert_eq!(cache_file_name("dog.png", CacheKind::Still), "dog.png.sfb");
    assert_eq!(cache_file_name("dir/", CacheKind::Still), ".sfb");
}
