use deskmate::motion::{covers_monitor, WorkArea};
use deskmate::windows::{
    bundled_pet_sprite_version, desired_window_labels, is_fullscreen_window_class, is_pet_window,
    pet_window_index, pet_window_label, surplus_pet_windows,
};

#[test]
fn pet_window_labels_round_trip() {
    assert_eq!(pet_window_label(0), "pet");
    assert_eq!(pet_window_label(1), "pet-2");
    assert_eq!(pet_window_label(3), "pet-4");
    assert_eq!(pet_window_index("pet"), Some(0));
    assert_eq!(pet_window_index("pet-2"), Some(1));
    assert_eq!(pet_window_index("pet-4"), Some(3));
    assert_eq!(pet_window_index("pet-1"), None);
    assert_eq!(pet_window_index("settings"), None);
}

#[test]
fn windows_desktop_is_not_a_fullscreen_app() {
    assert!(!is_fullscreen_window_class("Progman", true));
    assert!(!is_fullscreen_window_class("WorkerW", true));
    assert!(is_fullscreen_window_class("Chrome_WidgetWin_1", true));
}

#[test]
fn a_window_that_does_not_fill_its_monitor_is_not_fullscreen() {
    assert!(!is_fullscreen_window_class("Chrome_WidgetWin_1", false));
}

#[test]
fn window_label_round_trip_holds_for_many_slots() {
    for index in 0..200usize {
        let label = pet_window_label(index);
        assert_eq!(pet_window_index(&label), Some(index));
        assert!(is_pet_window(&label));
    }
    assert_eq!(pet_window_index("pet-0"), None);
    assert_eq!(pet_window_index("pet-"), None);
    assert_eq!(pet_window_index("pet-+3"), None);
    assert_eq!(pet_window_index("pet-02"), None);
    assert_eq!(pet_window_index("pet-10"), Some(9));
    assert_eq!(pet_window_index("pet-x"), None);
    assert!(!is_pet_window("bubble"));
}

#[test]
fn desired_labels_follow_the_selection_slots() {
    assert_eq!(desired_window_labels(0), Vec::<String>::new());
    assert_eq!(desired_window_labels(3), vec!["pet", "pet-2", "pet-3"]);
}

#[test]
fn surplus_windows_are_pet_windows_no_longer_needed() {
    let open: Vec<String> = ["pet", "settings", "pet-2", "pet-3", "bubble"]
        .iter()
        .map(|s| s.to_string())
        .collect();
    let desired = desired_window_labels(2);
    assert_eq!(surplus_pet_windows(&open, &desired), vec!["pet-3"]);
    assert_eq!(
        surplus_pet_windows(&open, &desired_window_labels(0)),
        vec!["pet", "pet-2", "pet-3"]
    );
}

#[test]
fn bundled_pets_are_known_by_id_and_version() {
    assert_eq!(bundled_pet_sprite_version("yanghao", "1.0.0"), Some(2));
    assert_eq!(bundled_pet_sprite_version("lev-neon", "1.0.0"), Some(2));
    assert_eq!(bundled_pet_sprite_version("lev-neon", "1.0.1"), None);
    assert_eq!(bundled_pet_sprite_version("studio-cat", "local"), None);
}

#[test]
fn covering_allows_two_pixels_at_each_edge() {
    let monitor = WorkArea { left: 0, top: 0, right: 1920, bottom: 1080 };
    assert!(covers_monitor(WorkArea { left: -2, top: 2, right: 1922, bottom: 1078 }, monitor));
    assert!(!covers_monitor(WorkArea { left: -3, top: 0, right: 1920, bottom: 1080 }, monitor));
    assert!(!covers_monitor(WorkArea { left: 0, top: 0, right: 1920, bottom: 1000 }, monitor));
    assert!(!covers_monitor(
        WorkArea { left: i32::MIN, top: 0, right: 1920, bottom: 1080 },
        WorkArea { left: i32::MAX, top: 0, right: 1920, bottom: 1080 }
    ));
}
