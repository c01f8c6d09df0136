use deskmate::settings::SettingsStore;
use deskmate::timetable::{TimeTable, WindowFlags};
use std::path::PathBuf;

#[test]
fn a_recorded_time_is_read_back_and_replaced() {
    let mut table = TimeTable::new();
    assert_eq!(table.get("water"), None);
    table.set("water", 10);
    table.set("stretch", 20);
    assert_eq!(table.get("water"), Some(10));
    table.set("water", 30);
    assert_eq!(table.get("water"), Some(30));
    assert_eq!(table.get("stretch"), Some(20));
    table.remove("water");
    assert_eq!(table.get("water"), None);
    assert_eq!(table.get("stretch"), Some(20));
}

#[test]
fn window_flags_default_to_false_and_any_sees_a_set_flag() {
    let mut flags = WindowFlags::new();
    assert!(!flags.flag("pet"));
    assert!(!flags.any());
    flags.set("pet-2", false);
    assert!(!flags.any());
    flags.set("pet", true);
    assert!(flags.flag("pet"));
    assert!(flags.any());
    flags.set("pet", false);
    assert!(!flags.any());
}

#[test]
fn the_settings_store_keeps_its_path() {
    let store = SettingsStore::new(PathBuf::from("/data/settings.json"));
    assert_eq!(store.path(), &PathBuf::from("/data/settings.json"));
}
