use ranger::color::Palette;
use ranger::frame::{accumulate_lag, schedule_updates};
use ranger::fx_edge::FXEdge;
use ranger::node::TimingProperties;

#[test]
fn hex_rgb_splits_channels_and_is_opaque() {
    let c = Palette::from_hex_rgb(0xAB123456);
    assert_eq!((c.r, c.g, c.b, c.a), (0x12, 0x34, 0x56, 0xff));
}

#[test]
fn hex_rgba_splits_four_channels() {
    let c = Palette::from_hex_rgba(0x12345678);
    assert_eq!((c.r, c.g, c.b, c.a), (0x12, 0x34, 0x56, 0x78));
}

#[test]
fn named_colors() {
    let g = Palette::GRAY();
    assert_eq!((g.r, g.g, g.b, g.a), (0xAA, 0xAA, 0xAA, 255));
    let o = Palette::ORANGE();
    assert_eq!((o.r, o.g, o.b, o.a), (255, 127, 0, 255));
    let w = Palette::WHITE(200);
    assert_eq!((w.r, w.g, w.b, w.a), (255, 255, 255, 200));
    let n = Palette::NAVY();
    assert_eq!((n.r, n.g, n.b, n.a), (0x00, 0x1f, 0x3f, 255));
    let d = Palette::DARK_GRAY();
    assert_eq!((d.r, d.g, d.b, d.a), (64, 64, 64, 255));
    let l = Palette::RGBA(1, 2, 3, 4);
    assert_eq!((l.r, l.g, l.b, l.a), (1, 2, 3, 4));
}

#[test]
fn timing_properties_start_paused() {
    let mut t = TimingProperties::new();
    assert!(t.paused());
    t.pause(false);
    assert!(!t.paused());
}

#[test]
fn edge_step_carries_the_error_term() {
    let mut e = FXEdge::new();
    assert_eq!((e.x, e.y, e.height), (0, 0, 0));
    e.x = 10;
    e.x_step = 2;
    e.numerator = 2;
    e.denominator = 3;
    e.error_term = 2;
    e.y = 5;
    e.height = 4;
    e.step();
    // error 2 + 2 = 4 >= 3: one extra pixel, error wraps to 1
    assert_eq!((e.x, e.error_term, e.y, e.height), (13, 1, 6, 3));
    e.step();
    // error 1 + 2 = 3 >= 3: carry again, error 0
    assert_eq!((e.x, e.error_term, e.y, e.height), (16, 0, 7, 2));
    e.step();
    // error 0 + 2 = 2 < 3: no carry
    assert_eq!((e.x, e.error_term, e.y, e.height), (18, 2, 8, 1));
}

#[test]
fn updates_split_the_lag_into_whole_steps() {
    let s = schedule_updates(100, 30);
    assert_eq!((s.updates, s.lag), (3, 10));
    let s = schedule_updates(29, 30);
    assert_eq!((s.updates, s.lag), (0, 29));
    let s = schedule_updates(60, 30);
    assert_eq!((s.updates, s.lag), (2, 0));
}

#[test]
fn lag_saturates() {
    assert_eq!(accumulate_lag(5, 7), 12);
    assert_eq!(accumulate_lag(u64::MAX - 1, 7), u64::MAX);
}
