use region_explorer::document::{LoadError, RegionData};
use region_explorer::format::{parse_region, render_region};

fn doc(name: &str, image: &str, description: &str, points: &[(i64, i64, &str)]) -> RegionData {
    let mut d = RegionData::new();
    d.name = String::from(name);
    d.image = String::from(image);
    d.description = String::from(description);
    for (x, y, text) in points {
        let i = d.add_point(*x, *y, false).unwrap();
        d.update_point_description(i, String::from(*text)).unwrap();
    }
    d
}

fn assert_docs_equal(a: &RegionData, b: &RegionData) {
    assert_eq!(a.name, b.name);
    assert_eq!(a.image, b.image);
    assert_eq!(a.description, b.description);
    assert_eq!(a.points.len(), b.points.len());
    for i in 0..a.points.len() {
        assert_eq!(a.points[i].x_milli, b.points[i].x_milli);
        assert_eq!(a.points[i].y_milli, b.points[i].y_milli);
        assert_eq!(a.points[i].description, b.points[i].description);
    }
}

#[test]
fn renders_empty_document_canonically() {
    let d = RegionData::new();
    assert_eq!(render_region(&d), "(name:\"\",image:\"\",description:\"\",points:[])");
}

#[test]
fn renders_points_with_three_fraction_digits() {
    let d = doc("n", "i.png", "d", &[(10500, -2000, "a")]);
    assert_eq!(
        render_region(&d),
        "(name:\"n\",image:\"i.png\",description:\"d\",points:[(x:10.500,y:-2.000,description:\"a\")])"
    );
}

#[test]
fn round_trips_plain_document() {
    let d = doc("kellua saari", "kellua saari.png", "an island", &[
        (10000, 20000, "a"),
        (-5250, 0, "b"),
    ]);
    let text = render_region(&d);
    let back = parse_region(&text).unwrap();
    assert_docs_equal(&d, &back);
}

#[test]
fn round_trips_escaped_and_unicode_text() {
    let d = doc(
        "he said \"hi\"",
        "C:\\maps\\img.png",
        "line one\nline two\ttabbed",
        &[(1, -1, "quote \" backslash \\ end"), (0, 0, "sävel ☃")],
    );
    let text = render_region(&d);
    let back = parse_region(&text).unwrap();
    assert_docs_equal(&d, &back);
}

#[test]
fn round_trips_extreme_coordinates() {
    let d = doc("n", "i", "", &[(i64::MIN, i64::MAX, "edge"), (-1, 1, "")]);
    let text = render_region(&d);
    let back = parse_region(&text).unwrap();
    assert_docs_equal(&d, &back);
}

#[test]
fn parses_pretty_printed_file() {
    let text = "(\n    name: \"r\",\n    image: \"m.png\",\n    description: \"\",\n    points: [\n        (\n            x: 10,\n            y: 20.5,\n            description: \"a\",\n        ),\n    ],\n)\n";
    let d = parse_region(text).unwrap();
    assert_eq!(d.name, "r");
    assert_eq!(d.image, "m.png");
    assert_eq!(d.description, "");
    assert_eq!(d.points.len(), 1);
    assert_eq!(d.points[0].x_milli, 10000);
    assert_eq!(d.points[0].y_milli, 20500);
    assert_eq!(d.points[0].description, "a");
}

#[test]
fn parses_fraction_digit_counts() {
    let text = "(name:\"\",image:\"\",description:\"\",points:[(x:0.5,y:0.75,description:\"\"),(x:0.125,y:-3,description:\"\")])";
    let d = parse_region(text).unwrap();
    assert_eq!(d.points[0].x_milli, 500);
    assert_eq!(d.points[0].y_milli, 750);
    assert_eq!(d.points[1].x_milli, 125);
    assert_eq!(d.points[1].y_milli, -3000);
}

#[test]
fn parses_string_escapes() {
    let text = "(name:\"a\\\"b\",image:\"c\\\\d\",description:\"e\\nf\\tg\\rh\",points:[])";
    let d = parse_region(text).unwrap();
    assert_eq!(d.name, "a\"b");
    assert_eq!(d.image, "c\\d");
    assert_eq!(d.description, "e\nf\tg\rh");
}

#[test]
fn rejects_missing_field() {
    let text = "(name:\"\",description:\"\",points:[])";
    assert!(matches!(parse_region(text), Err(LoadError::Malformed)));
}

#[test]
fn rejects_unterminated_string() {
    let text = "(name:\"open,image:\"\",description:\"\",points:[])";
    assert!(matches!(parse_region(text), Err(LoadError::Malformed)));
}

#[test]
fn rejects_unknown_escape() {
    let text = "(name:\"a\\qb\",image:\"\",description:\"\",points:[])";
    assert!(matches!(parse_region(text), Err(LoadError::Malformed)));
}

#[test]
fn rejects_trailing_garbage() {
    let text = "(name:\"\",image:\"\",description:\"\",points:[])x";
    assert!(matches!(parse_region(text), Err(LoadError::Malformed)));
}

#[test]
fn rejects_four_fraction_digits() {
    let text = "(name:\"\",image:\"\",description:\"\",points:[(x:0.1234,y:0,description:\"\")])";
    assert!(matches!(parse_region(text), Err(LoadError::Malformed)));
}

#[test]
fn rejects_coordinate_beyond_storable_range() {
    let text =
        "(name:\"\",image:\"\",description:\"\",points:[(x:99999999999999999999,y:0,description:\"\")])";
    assert!(matches!(parse_region(text), Err(LoadError::Malformed)));
}

#[test]
fn rejects_empty_input() {
    assert!(matches!(parse_region(""), Err(LoadError::Malformed)));
}
