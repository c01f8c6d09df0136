use deskmate::catalog::{PetCatalogEntryV1, SemVer};
use deskmate::selection::{
    apply_upgrades, choose_selection, plan_upgrades, remove_from_selection, same_selection,
    selection_for_window, Upgrade,
};
use deskmate::settings::SelectedPet;

fn pet(id: &str, version: &str) -> SelectedPet {
    SelectedPet { id: id.into(), version: version.into() }
}

fn names(pets: &[SelectedPet]) -> Vec<String> {
    pets.iter().map(|p| format!("{}@{}", p.id, p.version)).collect()
}

fn entry(id: &str, version: &str, min_app: &str) -> PetCatalogEntryV1 {
    PetCatalogEntryV1 {
        id: id.into(),
        version: version.into(),
        display_name: "Pet".into(),
        description: "A pet".into(),
        author: "DeskMate contributors".into(),
        asset_license: "All rights reserved".into(),
        sprite_version_number: 2,
        min_app_version: min_app.into(),
        preview_url: "https://example.com/preview.png".into(),
        package_url: "https://github.com/o/r/releases/download/pets-v1/x.zip".into(),
        sha256: "a".repeat(64),
        size_bytes: 1024,
    }
}

#[test]
fn uninstalling_drops_every_entry_for_that_pet() {
    let selected = vec![pet("cat", "1.0.0"), pet("dog", "1.0.0"), pet("cat", "1.0.0")];
    let (after, changed) = remove_from_selection(&selected, "cat", "1.0.0");
    assert_eq!(names(&after), vec!["dog@1.0.0"]);
    assert!(changed);
    let (after, changed) = remove_from_selection(&selected, "owl", "1.0.0");
    assert_eq!(names(&after), names(&selected));
    assert!(!changed);
}

#[test]
fn uninstalling_the_last_pet_falls_back_to_the_default_companion() {
    let (after, changed) = remove_from_selection(&vec![pet("cat", "local")], "cat", "local");
    assert_eq!(names(&after), vec!["yanghao@1.0.0"]);
    assert!(changed);
    let (after, changed) =
        remove_from_selection(&vec![pet("yanghao", "1.0.0")], "yanghao", "1.0.0");
    assert_eq!(names(&after), vec!["yanghao@1.0.0"]);
    assert!(!changed);
}

#[test]
fn selections_compare_by_id_and_version_in_order() {
    let a = vec![pet("cat", "1"), pet("dog", "1")];
    assert!(same_selection(&a, &a.clone()));
    assert!(!same_selection(&a, &vec![pet("dog", "1"), pet("cat", "1")]));
    assert!(!same_selection(&a, &vec![pet("cat", "1")]));
}

#[test]
fn each_window_shows_its_own_slot() {
    let selected = vec![pet("cat", "1"), pet("dog", "1")];
    let fallback = pet("yanghao", "1.0.0");
    assert_eq!(selection_for_window(&selected, &fallback, "pet").id, "cat");
    assert_eq!(selection_for_window(&selected, &fallback, "pet-2").id, "dog");
    assert_eq!(selection_for_window(&selected, &fallback, "pet-3").id, "cat");
    assert_eq!(selection_for_window(&selected, &fallback, "settings").id, "cat");
    assert_eq!(selection_for_window(&vec![], &fallback, "pet-2").id, "yanghao");
}

#[test]
fn choosing_checks_each_new_pet_and_skips_repeats() {
    let chosen = choose_selection(
        vec![pet("cat", "1"), pet("cat", "1"), pet("dog", "local")],
        4,
        |_: &SelectedPet| Ok(()),
    )
    .unwrap();
    assert_eq!(names(&chosen), vec!["cat@1", "dog@local"]);
}

#[test]
fn choosing_refuses_blank_missing_empty_and_too_many() {
    assert_eq!(
        choose_selection(vec![pet(" ", "1")], 4, |_: &SelectedPet| Ok(())).unwrap_err(),
        "桌宠选择包含无效的 id 或版本"
    );
    assert_eq!(
        choose_selection(vec![pet("cat", "1"), pet("owl", "2")], 4, |p: &SelectedPet| {
            if p.id == "owl" {
                Err("pet version is not installed".to_string())
            } else {
                Ok(())
            }
        })
        .unwrap_err(),
        "owl@2：pet version is not installed"
    );
    assert_eq!(
        choose_selection(vec![], 4, |_: &SelectedPet| Ok(())).unwrap_err(),
        "至少保留一只桌宠"
    );
    assert_eq!(
        choose_selection(vec![pet("a", "1"), pet("b", "1"), pet("c", "1")], 2, |_: &SelectedPet| Ok(()))
            .unwrap_err(),
        "最多同时显示 2 只桌宠"
    );
}

#[test]
fn upgrades_pick_the_newest_installable_version() {
    let app = SemVer::parse("0.1.1").unwrap();
    let selected = vec![pet("cat", "1.0.0"), pet("dog", "local"), pet("owl", "2.0.0")];
    let entries = vec![
        entry("cat", "1.2.0", "0.1.0"),
        entry("cat", "1.5.0", "9.0.0"),
        entry("cat", "1.1.0", "0.1.0"),
        entry("dog", "9.0.0", "0.1.0"),
        entry("owl", "1.0.0", "0.1.0"),
    ];
    let plan = plan_upgrades(&selected, &entries, &app);
    assert_eq!(plan.len(), 1);
    assert_eq!(plan[0].from_version, "1.0.0");
    assert_eq!(plan[0].entry.version, "1.2.0");
}

#[test]
fn applying_upgrades_moves_the_matching_pets() {
    let mut selected = vec![pet("cat", "1.0.0"), pet("dog", "1.0.0"), pet("cat", "1.0.0")];
    let upgrades = vec![Upgrade { from_version: "1.0.0".into(), entry: entry("cat", "1.2.0", "0.1.0") }];
    assert!(apply_upgrades(&mut selected, &upgrades));
    assert_eq!(names(&selected), vec!["cat@1.2.0", "dog@1.0.0", "cat@1.2.0"]);
    assert!(!apply_upgrades(&mut selected, &upgrades));
    assert_eq!(names(&selected), vec!["cat@1.2.0", "dog@1.0.0", "cat@1.2.0"]);
}
