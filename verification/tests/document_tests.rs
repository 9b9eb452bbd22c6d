use region_explorer::document::{IndexError, MapPoint, RegionData};

#[test]
fn new_document_is_empty() {
    let d = RegionData::new();
    assert_eq!(d.name, "");
    assert_eq!(d.image, "");
    assert_eq!(d.description, "");
    assert_eq!(d.points.len(), 0);
}

#[test]
fn map_point_new_has_empty_description() {
    let p = MapPoint::new(1500, -2500);
    assert_eq!(p.x_milli, 1500);
    assert_eq!(p.y_milli, -2500);
    assert_eq!(p.description, "");
}

#[test]
fn add_point_appends_at_last_index() {
    let mut d = RegionData::new();
    let first = d.add_point(5000, 6000, false);
    assert_eq!(first, Some(0));
    assert_eq!(d.points.len(), 1);
    assert_eq!(d.points[0].x_milli, 5000);
    assert_eq!(d.points[0].y_milli, 6000);
    assert_eq!(d.points[0].description, "");
    let second = d.add_point(7000, 8000, false);
    assert_eq!(second, Some(1));
    assert_eq!(d.points.len(), 2);
    assert_eq!(d.points[1].x_milli, 7000);
    assert_eq!(d.points[0].x_milli, 5000);
}

#[test]
fn add_point_rejected_when_read_only() {
    let mut d = RegionData::new();
    d.add_point(1000, 1000, false);
    let before = d.points.len();
    let r = d.add_point(5, 5, true);
    assert_eq!(r, None);
    assert_eq!(d.points.len(), before);
}

#[test]
fn update_point_description_in_bounds() {
    let mut d = RegionData::new();
    d.add_point(1000, 2000, false);
    let r = d.update_point_description(0, String::from("hello"));
    assert_eq!(r, Ok(()));
    assert_eq!(d.points[0].description, "hello");
    assert_eq!(d.points[0].x_milli, 1000);
}

#[test]
fn update_point_description_out_of_bounds() {
    let mut d = RegionData::new();
    d.add_point(1000, 2000, false);
    let r = d.update_point_description(1, String::from("x"));
    assert_eq!(r, Err(IndexError::OutOfBounds));
    assert_eq!(d.points[0].description, "");
}

#[test]
fn update_region_description_keeps_points() {
    let mut d = RegionData::new();
    d.add_point(1, 2, false);
    d.update_region_description(String::from("a region"));
    assert_eq!(d.description, "a region");
    assert_eq!(d.points.len(), 1);
}
