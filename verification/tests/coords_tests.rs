use region_explorer::coords::{clamp_zoom, to_content, to_draw, to_draw_raw, Frac, Pos, Viewport};

fn frac(n: i64, d: i64) -> Frac {
    Frac::new(n, d)
}

#[test]
fn frac_arithmetic_by_value() {
    let a = frac(1, 2);
    let b = frac(1, 3);
    assert!(a.add(b).value_eq(frac(5, 6)));
    assert!(a.sub(b).value_eq(frac(1, 6)));
    assert!(a.mul(b).value_eq(frac(1, 6)));
    assert!(a.div(b).value_eq(frac(3, 2)));
    assert!(a.div(frac(-1, 3)).value_eq(frac(-3, 2)));
    assert!(frac(2, 4).value_eq(frac(1, 2)));
    assert!(frac(1, 3).value_lt(frac(1, 2)));
    assert!(frac(1, 2).value_le(frac(1, 2)));
}

#[test]
fn draw_position_at_half_zoom() {
    // zoom 0.5, pan (100, 50): content (40, 40) draws at (120, 70) before
    // the cosmetic marker offset.
    let content = Pos::new(Frac::from_int(40), Frac::from_int(40));
    let pan = Pos::new(Frac::from_int(100), Frac::from_int(50));
    let zoom = frac(1, 2);
    let d = to_draw_raw(content, pan, zoom);
    assert!(d.x.value_eq(Frac::from_int(120)));
    assert!(d.y.value_eq(Frac::from_int(70)));
}

#[test]
fn draw_position_centers_marker() {
    let content = Pos::new(Frac::from_int(40), Frac::from_int(40));
    let pan = Pos::new(Frac::from_int(100), Frac::from_int(50));
    let zoom = frac(1, 2);
    let half = Pos::new(Frac::from_int(8), Frac::from_int(8));
    let d = to_draw(content, pan, zoom, half);
    assert!(d.x.value_eq(Frac::from_int(112)));
    assert!(d.y.value_eq(Frac::from_int(62)));
}

#[test]
fn content_position_round_trips_through_draw() {
    let content = Pos::new(frac(377, 3), frac(-41, 7));
    let pan = Pos::new(frac(99, 2), Frac::from_int(-25));
    let origin = Pos::new(Frac::from_int(12), Frac::from_int(30));
    let zoom = frac(3, 10);
    let d = to_draw_raw(content, pan, zoom);
    let raw = Pos::new(d.x.add(origin.x), d.y.add(origin.y));
    let back = to_content(raw, origin, pan, zoom);
    assert!(back.x.value_eq(content.x));
    assert!(back.y.value_eq(content.y));
}

#[test]
fn floor_milli_rounds_toward_minus_infinity() {
    assert_eq!(frac(3, 2).floor_milli(), Some(1500));
    assert_eq!(frac(-3, 2).floor_milli(), Some(-1500));
    assert_eq!(frac(1, 3).floor_milli(), Some(333));
    assert_eq!(frac(-1, 3).floor_milli(), Some(-334));
    assert_eq!(Frac::from_int(0).floor_milli(), Some(0));
    // a value far beyond the storable range
    let huge = Frac { num: i128::MAX / 1000, den: 1 };
    assert_eq!(huge.floor_milli(), None);
}

#[test]
fn clamp_zoom_respects_configured_range() {
    let lo = frac(1, 10);
    let hi = Frac::from_int(1);
    let below = clamp_zoom(frac(1, 100), lo, hi);
    assert!(below.value_eq(lo));
    let above = clamp_zoom(frac(5, 1), lo, hi);
    assert!(above.value_eq(hi));
    let inside = clamp_zoom(frac(1, 2), lo, hi);
    assert!(inside.value_eq(frac(1, 2)));
}

#[test]
fn viewport_contains_boundaries() {
    let vp = Viewport {
        origin: Pos::new(Frac::from_int(10), Frac::from_int(20)),
        width: Frac::from_int(100),
        height: Frac::from_int(50),
    };
    assert!(vp.contains(Pos::new(Frac::from_int(10), Frac::from_int(20))));
    assert!(vp.contains(Pos::new(Frac::from_int(109), Frac::from_int(69))));
    assert!(!vp.contains(Pos::new(Frac::from_int(110), Frac::from_int(30))));
    assert!(!vp.contains(Pos::new(Frac::from_int(50), Frac::from_int(70))));
    assert!(!vp.contains(Pos::new(Frac::from_int(9), Frac::from_int(30))));
}
