use mofetch::codec::decode_cache;
use mofetch::playback::{frame_output, intro_text, PlayStep, Playback};

#[test]
fn still_renders_once() {
    let mut p = Playback::new(1, true);
    assert_eq!(p.step(), PlayStep::Show { index: 0, wait: false });
    for _ in 0..5 {
        assert_eq!(p.step(), PlayStep::Stop);
    }
}

#[test]
fn still_with_several_frames_shows_each_once() {
    let mut p = Playback::new(3, true);
    assert_eq!(p.step(), PlayStep::Show { index: 0, wait: true });
    assert_eq!(p.step(), PlayStep::Show { index: 1, wait: true });
    assert_eq!(p.step(), PlayStep::Show { index: 2, wait: false });
    assert_eq!(p.step(), PlayStep::Stop);
}

#[test]
fn video_loops() {
    let mut p = Playback::new(3, false);
    for n in 0..100usize {
        assert_eq!(p.step(), PlayStep::Show { index: n % 3, wait: true });
    }
}

#[test]
fn screen_output() {
    assert_eq!(intro_text(), "\x1b[2J\x1b[2;2H");
    let c = decode_cache("[] fps=24\n\nab\ncd\n").unwrap();
    assert_eq!(frame_output(&c.frames[0]), "\x1b[1;1Hab\ncd\n");
}
