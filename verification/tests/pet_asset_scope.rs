use deskmate::pet_asset_scope::authorize_selected_asset;
use std::path::{Path, PathBuf};

#[test]
fn authorizes_only_the_selected_spritesheet_path() {
    let spritesheet = PathBuf::from(r"D:\custom-pets\studio-cat\spritesheet.webp");
    let mut authorized = None;

    authorize_selected_asset(&spritesheet, |path: &Path| {
        authorized = Some(path.to_path_buf());
        Ok::<(), &str>(())
    })
    .unwrap();

    assert_eq!(authorized, Some(spritesheet));
}

#[test]
fn a_refused_authorization_names_the_reason() {
    let spritesheet = PathBuf::from("/pets/cat/spritesheet.webp");
    let result = authorize_selected_asset(&spritesheet, |_: &Path| Err::<(), &str>("denied"));
    assert_eq!(result.unwrap_err(), "无法授权宠物图集：denied");
}
