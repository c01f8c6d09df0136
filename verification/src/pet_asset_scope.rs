//! Letting the webview read exactly the selected pet's spritesheet.

use vstd::prelude::*;
use vstd::string::to_string_from_display_ensures;

verus! {

#[verifier::external_type_specification]
#[verifier::external_body]
pub struct ExPath(std::path::Path);

pub open spec fn authorize_failure_prefix() -> Seq<char> {
    "无法授权宠物图集："@
}

/// Grants the asset scope access to the selected spritesheet through
/// `allow_file`, which receives exactly that path; a refusal is reported with
/// the scope's own description of it.
pub fn authorize_selected_asset<E: std::fmt::Display, F: FnOnce(&std::path::Path) -> Result<(), E>>(
    spritesheet: &std::path::Path,
    allow_file: F,
) -> (r: Result<(), String>)
    requires
        allow_file.requires((spritesheet,)),
    ensures
        r is Ok ==> exists|answer: Result<(), E>| answer is Ok && allow_file.ensures((spritesheet,), answer),
        r matches Err(m) ==> exists|e: E, described: String|
            allow_file.ensures((spritesheet,), Err(e)) && to_string_from_display_ensures(
                &e,
                described,
            ) && m@ == authorize_failure_prefix() + described@,
{
    let answer = allow_file(spritesheet);
    match answer {
        Ok(()) => {
            assert(answer is Ok && allow_file.ensures((spritesheet,), answer));
            Ok(())
        },
        Err(error) => {
            let described = error.to_string();
            let mut m = String::from_str("无法授权宠物图集：");
            m.append(described.as_str());
            Err(m)
        },
    }
}

} // verus!
