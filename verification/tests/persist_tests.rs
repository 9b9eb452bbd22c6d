use region_explorer::document::{LoadError, RegionData, SaveError};
use region_explorer::persist::{backup_path, load_region, save_region, FileStore};
use region_explorer::selection::SelectionState;

const PATH: &str = "kellua_saari.ron";

fn sample_file() -> &'static str {
    "(name:\"kellua\",image:\"kellua saari.png\",description:\"an island\",points:[(x:10,y:20,description:\"a\")])"
}

#[test]
fn backup_path_replaces_the_extension() {
    assert_eq!(backup_path("kellua_saari.ron"), "kellua_saari.backup");
    assert_eq!(backup_path("region"), "region.backup");
    assert_eq!(backup_path("a.b.c"), "a.b.backup");
    assert_eq!(backup_path(""), ".backup");
}

#[test]
fn store_read_write() {
    let mut store = FileStore::new();
    assert!(!store.contains("f"));
    assert_eq!(store.read("f"), None);
    store.write("f", String::from("one"));
    assert_eq!(store.read("f").unwrap(), "one");
    store.write("f", String::from("two"));
    assert_eq!(store.read("f").unwrap(), "two");
    store.write("g", String::from("three"));
    assert_eq!(store.read("f").unwrap(), "two");
    assert_eq!(store.read("g").unwrap(), "three");
}

#[test]
fn load_missing_file_fails() {
    let store = FileStore::new();
    match load_region(&store, PATH) {
        Err(LoadError::FileNotFound) => {},
        _ => panic!("expected FileNotFound"),
    }
}

#[test]
fn load_malformed_file_fails() {
    let mut store = FileStore::new();
    store.write(PATH, String::from("not a region"));
    match load_region(&store, PATH) {
        Err(LoadError::Malformed) => {},
        _ => panic!("expected Malformed"),
    }
}

#[test]
fn save_without_existing_file_fails_and_changes_nothing() {
    let mut store = FileStore::new();
    let d = RegionData::new();
    let r = save_region(&mut store, PATH, &d);
    assert_eq!(r, Err(SaveError::BackupFailed));
    assert!(!store.contains(PATH));
    assert!(!store.contains("kellua_saari.backup"));
}

#[test]
fn save_backs_up_the_previous_content() {
    let mut store = FileStore::new();
    store.write(PATH, String::from(sample_file()));
    let mut d = load_region(&store, PATH).unwrap();
    d.update_region_description(String::from("changed"));
    save_region(&mut store, PATH, &d).unwrap();
    // the backup holds the pre-save content, not the new one
    assert_eq!(store.read("kellua_saari.backup").unwrap(), sample_file());
    assert_ne!(store.read(PATH).unwrap(), sample_file());
}

#[test]
fn edit_save_reload_scenario() {
    let mut store = FileStore::new();
    store.write(PATH, String::from(sample_file()));

    let mut d = load_region(&store, PATH).unwrap();
    assert_eq!(d.points.len(), 1);
    assert_eq!(d.points[0].x_milli, 10000);
    assert_eq!(d.points[0].y_milli, 20000);
    assert_eq!(d.points[0].description, "a");

    let mut sel = SelectionState::new();
    sel.select_point(&d, 0).unwrap();
    sel.text_changed(&mut d, "b");
    let saved = sel.request_save(&d, &mut store, PATH);
    assert_eq!(saved, Ok(true));

    let reloaded = load_region(&store, PATH).unwrap();
    assert_eq!(reloaded.points[0].description, "b");
    assert_eq!(reloaded.name, "kellua");
    assert_eq!(reloaded.image, "kellua saari.png");
    assert_eq!(store.read("kellua_saari.backup").unwrap(), sample_file());
}

#[test]
fn save_load_round_trip_preserves_every_field() {
    let mut store = FileStore::new();
    store.write(PATH, String::from("(name:\"\",image:\"\",description:\"\",points:[])"));
    let mut d = RegionData::new();
    d.name = String::from("a \"name\"");
    d.image = String::from("img.png");
    d.description = String::from("multi\nline");
    d.add_point(123, -456, false);
    d.update_point_description(0, String::from("p\\q")).unwrap();
    save_region(&mut store, PATH, &d).unwrap();
    let back = load_region(&store, PATH).unwrap();
    assert_eq!(back.name, d.name);
    assert_eq!(back.image, d.image);
    assert_eq!(back.description, d.description);
    assert_eq!(back.points.len(), 1);
    assert_eq!(back.points[0].x_milli, 123);
    assert_eq!(back.points[0].y_milli, -456);
    assert_eq!(back.points[0].description, "p\\q");
}
