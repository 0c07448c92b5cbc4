use walking_coverage::geo::{comma_position, eq, le, lt, Bounds, Coords, GeoTransform};

fn coords(lng: f64, lat: f64) -> Coords {
    Coords { lng: lng.to_bits(), lat: lat.to_bits() }
}

fn transform(c: [f64; 6]) -> GeoTransform {
    GeoTransform { coefficients: c.map(f64::to_bits) }
}

#[test]
fn origin_corner_maps_and_is_contained() {
    let t = transform([100.0, 1.0, 0.0, 50.0, 0.0, -1.0]);
    assert!(t.is_north_up());
    let top_left = t.top_left();
    assert_eq!(top_left, coords(100.0, 50.0));
    let bounds = Bounds { top_left, bottom_right: coords(100.0 + 1.0 * 10.0, 50.0 - 1.0 * 10.0) };
    assert!(bounds.contains(&coords(100.0, 50.0)));
    assert!(!bounds.contains(&coords(99.9, 50.0)));
}

#[test]
fn contains_is_inclusive_on_all_edges() {
    let bounds = Bounds { top_left: coords(-10.0, 20.0), bottom_right: coords(10.0, -20.0) };
    for c in [coords(-10.0, 20.0), coords(10.0, -20.0), coords(-10.0, -20.0), coords(10.0, 20.0), coords(0.0, 0.0)] {
        assert!(bounds.contains(&c));
    }
    for c in [coords(-10.5, 0.0), coords(10.5, 0.0), coords(0.0, 20.5), coords(0.0, -20.5), coords(f64::NAN, 0.0)] {
        assert!(!bounds.contains(&c));
    }
}

#[test]
fn north_up_rejects_rotation_and_bad_signs() {
    assert!(transform([0.0, 1.0, 0.0, 0.0, -0.0, -1.0]).is_north_up());
    assert!(!transform([0.0, 1.0, 0.5, 0.0, 0.0, -1.0]).is_north_up());
    assert!(!transform([0.0, 1.0, 0.0, 0.0, -0.5, -1.0]).is_north_up());
    assert!(!transform([0.0, 0.0, 0.0, 0.0, 0.0, -1.0]).is_north_up());
    assert!(!transform([0.0, -1.0, 0.0, 0.0, 0.0, -1.0]).is_north_up());
    assert!(!transform([0.0, 1.0, 0.0, 0.0, 0.0, 0.0]).is_north_up());
    assert!(!transform([0.0, 1.0, 0.0, 0.0, 0.0, 1.0]).is_north_up());
    assert!(!transform([0.0, f64::NAN, 0.0, 0.0, 0.0, -1.0]).is_north_up());
}

#[test]
fn float_comparisons_match_ieee() {
    let values = [f64::NEG_INFINITY, -3.5, -1.0, -0.0, 0.0, 1e-300, 2.0, 7.25, f64::INFINITY, f64::NAN];
    for a in values {
        for b in values {
            assert_eq!(le(a.to_bits(), b.to_bits()), a <= b, "{} <= {}", a, b);
            assert_eq!(lt(a.to_bits(), b.to_bits()), a < b, "{} < {}", a, b);
            assert_eq!(eq(a.to_bits(), b.to_bits()), a == b, "{} == {}", a, b);
        }
    }
}

#[test]
fn origin_text_splits_at_the_comma() {
    let s = "12.5,45.0";
    let i = comma_position(s).unwrap();
    assert_eq!(i, 4);
    let lng: f64 = s[..i].parse().unwrap();
    let lat: f64 = s[i + 1..].parse().unwrap();
    assert_eq!(coords(lng, lat), coords(12.5, 45.0));
}

#[test]
fn origin_text_without_comma_is_rejected() {
    assert_eq!(comma_position("bad"), None);
    assert_eq!(comma_position(""), None);
    assert_eq!(comma_position(",1"), Some(0));
    assert_eq!(comma_position("1,2,3"), Some(1));
}
