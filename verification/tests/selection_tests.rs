use region_explorer::coords::{Frac, Pos, Viewport};
use region_explorer::document::{IndexError, RegionData};
use region_explorer::persist::FileStore;
use region_explorer::selection::{SelectionState, RIGHT_BUTTON};

fn two_point_doc() -> RegionData {
    let mut d = RegionData::new();
    d.update_region_description(String::from("region text"));
    d.add_point(10000, 20000, false);
    d.add_point(30000, 40000, false);
    d.update_point_description(0, String::from("first")).unwrap();
    d.update_point_description(1, String::from("second")).unwrap();
    d
}

fn unit_viewport() -> Viewport {
    Viewport {
        origin: Pos::new(Frac::from_int(0), Frac::from_int(0)),
        width: Frac::from_int(100),
        height: Frac::from_int(100),
    }
}

#[test]
fn selecting_then_committing_binds_to_that_point() {
    let mut d = two_point_doc();
    let mut sel = SelectionState::new();
    sel.select_point(&d, 0).unwrap();
    assert_eq!(sel.edit_buffer, "first");
    sel.text_changed(&mut d, "T");
    assert_eq!(d.points[0].description, "T");
    assert_eq!(d.points[1].description, "second");
    assert_eq!(d.description, "region text");
    assert_eq!(sel.edit_buffer, "T");
}

#[test]
fn selecting_missing_point_is_an_index_error() {
    let d = two_point_doc();
    let mut sel = SelectionState::new();
    assert_eq!(sel.select_point(&d, 2), Err(IndexError::OutOfBounds));
    assert_eq!(sel.selected_index, None);
}

#[test]
fn no_selection_commits_to_region_description() {
    let mut d = two_point_doc();
    let mut sel = SelectionState::new();
    sel.select_point(&d, 1).unwrap();
    sel.clear_selection(&d);
    assert_eq!(sel.edit_buffer, "region text");
    sel.text_changed(&mut d, "new region text");
    assert_eq!(d.description, "new region text");
    assert_eq!(d.points[0].description, "first");
    assert_eq!(d.points[1].description, "second");
}

#[test]
fn read_only_freezes_description_commits() {
    let mut d = two_point_doc();
    let mut sel = SelectionState::new();
    sel.select_point(&d, 0).unwrap();
    sel.set_read_only(true);
    sel.text_changed(&mut d, "T");
    assert_eq!(d.points[0].description, "first");
    assert_eq!(sel.edit_buffer, "first");
    sel.set_read_only(false);
    sel.text_changed(&mut d, "T");
    assert_eq!(d.points[0].description, "T");
}

#[test]
fn right_press_inside_viewport_creates_point() {
    let mut d = RegionData::new();
    let sel = SelectionState::new();
    let raw = Pos::new(Frac::from_int(40), Frac::from_int(40));
    let pan = Pos::new(Frac::from_int(0), Frac::from_int(0));
    let r = sel.handle_press(&mut d, RIGHT_BUTTON, raw, unit_viewport(), pan, Frac::from_int(1));
    assert_eq!(r, Some(0));
    assert_eq!(d.points.len(), 1);
    assert_eq!(d.points[0].x_milli, 40000);
    assert_eq!(d.points[0].y_milli, 40000);
    assert_eq!(d.points[0].description, "");
}

#[test]
fn press_accounts_for_pan_and_zoom() {
    let mut d = RegionData::new();
    let sel = SelectionState::new();
    // raw (70, 60), origin (0, 0), pan (50, 40), zoom 0.5:
    // content = ((70 - 50) / 0.5, (60 - 40) / 0.5) = (40, 40)
    let raw = Pos::new(Frac::from_int(70), Frac::from_int(60));
    let pan = Pos::new(Frac::from_int(50), Frac::from_int(40));
    let r = sel.handle_press(&mut d, RIGHT_BUTTON, raw, unit_viewport(), pan, Frac::new(1, 2));
    assert_eq!(r, Some(0));
    assert_eq!(d.points[0].x_milli, 40000);
    assert_eq!(d.points[0].y_milli, 40000);
}

#[test]
fn left_press_creates_nothing() {
    let mut d = RegionData::new();
    let sel = SelectionState::new();
    let raw = Pos::new(Frac::from_int(40), Frac::from_int(40));
    let pan = Pos::new(Frac::from_int(0), Frac::from_int(0));
    let r = sel.handle_press(&mut d, 1, raw, unit_viewport(), pan, Frac::from_int(1));
    assert_eq!(r, None);
    assert_eq!(d.points.len(), 0);
}

#[test]
fn press_outside_viewport_creates_nothing() {
    let mut d = RegionData::new();
    let sel = SelectionState::new();
    let raw = Pos::new(Frac::from_int(200), Frac::from_int(40));
    let pan = Pos::new(Frac::from_int(0), Frac::from_int(0));
    let r = sel.handle_press(&mut d, RIGHT_BUTTON, raw, unit_viewport(), pan, Frac::from_int(1));
    assert_eq!(r, None);
    assert_eq!(d.points.len(), 0);
}

#[test]
fn read_only_press_creates_nothing() {
    let mut d = RegionData::new();
    let mut sel = SelectionState::new();
    sel.set_read_only(true);
    let raw = Pos::new(Frac::from_int(5), Frac::from_int(5));
    let pan = Pos::new(Frac::from_int(0), Frac::from_int(0));
    let r = sel.handle_press(&mut d, RIGHT_BUTTON, raw, unit_viewport(), pan, Frac::from_int(1));
    assert_eq!(r, None);
    assert_eq!(d.points.len(), 0);
}

#[test]
fn read_only_save_request_writes_nothing() {
    let mut store = FileStore::new();
    store.write("region.ron", String::from("old content"));
    let d = two_point_doc();
    let mut sel = SelectionState::new();
    sel.set_read_only(true);
    let r = sel.request_save(&d, &mut store, "region.ron");
    assert_eq!(r, Ok(false));
    assert_eq!(store.read("region.ron").unwrap(), "old content");
    assert!(!store.contains("region.backup"));
}
