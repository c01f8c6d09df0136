//! Which pets are on the desktop: choosing a selection, dropping an
//! uninstalled pet, the pet each window shows, and upgrading selected pets
//! to newer catalog versions.

use vstd::prelude::*;
use crate::catalog::{newer, semver_newer, semver_parses, PetCatalogEntryV1, SemVer};
use crate::settings::SelectedPet;
use crate::text::{blank, decimal, decimal_text, is_blank, same_text};
use crate::windows::{pet_window_index, window_index};

verus! {

pub open spec fn pet_view(p: SelectedPet) -> (Seq<char>, Seq<char>) {
    (p.id@, p.version@)
}

pub open spec fn selection_views(v: Seq<SelectedPet>) -> Seq<(Seq<char>, Seq<char>)> {
    v.map_values(|p: SelectedPet| pet_view(p))
}

/// The companion that stands in when nothing else is selected.
pub open spec fn default_pet() -> (Seq<char>, Seq<char>) {
    ("yanghao"@, "1.0.0"@)
}

fn default_selected_pet() -> (r: SelectedPet)
    ensures
        pet_view(r) == default_pet(),
{
    SelectedPet { id: String::from_str("yanghao"), version: String::from_str("1.0.0") }
}

fn same_pet(a: &SelectedPet, id: &str, version: &str) -> (r: bool)
    ensures
        r == (a.id@ == id@ && a.version@ == version@),
{
    same_text(a.id.as_str(), id) && same_text(a.version.as_str(), version)
}

/// Whether two selections name the same pets in the same order.
pub fn same_selection(a: &Vec<SelectedPet>, b: &Vec<SelectedPet>) -> (r: bool)
    ensures
        r == (selection_views(a@) == selection_views(b@)),
{
    let n = a.len();
    if n != b.len() {
        assert(selection_views(a@).len() != selection_views(b@).len());
        return false;
    }
    let mut i: usize = 0;
    while i < n
        invariant
            n == a@.len(),
            n == b@.len(),
            i <= n,
            forall|j: int| 0 <= j < i ==> pet_view(#[trigger] a@[j]) == pet_view(b@[j]),
        decreases n - i,
    {
        if !same_pet(&a[i], b[i].id.as_str(), b[i].version.as_str()) {
            assert(selection_views(a@)[i as int] != selection_views(b@)[i as int]);
            return false;
        }
        i = i + 1;
    }
    assert(selection_views(a@) =~= selection_views(b@));
    true
}

// ---------------------------------------------------------------------------
// Uninstalling.

pub open spec fn without_pet(s: Seq<(Seq<char>, Seq<char>)>, id: Seq<char>, version: Seq<char>) -> Seq<
    (Seq<char>, Seq<char>),
>
    decreases s.len(),
{
    if s.len() == 0 {
        seq![]
    } else {
        let rest = without_pet(s.drop_last(), id, version);
        if s.last() == (id, version) {
            rest
        } else {
            rest.push(s.last())
        }
    }
}

/// The selection after `id@version` is uninstalled: every entry for it is
/// dropped, and the default companion stands in for an empty selection.
pub open spec fn selection_after_uninstall(
    s: Seq<(Seq<char>, Seq<char>)>,
    id: Seq<char>,
    version: Seq<char>,
) -> Seq<(Seq<char>, Seq<char>)> {
    let kept = without_pet(s, id, version);
    if kept.len() == 0 {
        seq![default_pet()]
    } else {
        kept
    }
}

/// The selection after an uninstall, and whether it differs from before.
pub fn remove_from_selection(selected: &Vec<SelectedPet>, id: &str, version: &str) -> (r: (
    Vec<SelectedPet>,
    bool,
))
    ensures
        selection_views(r.0@) == selection_after_uninstall(selection_views(selected@), id@, version@),
        r.1 == (selection_views(r.0@) != selection_views(selected@)),
{
    let ghost all = selection_views(selected@);
    let mut kept: Vec<SelectedPet> = Vec::new();
    let n = selected.len();
    let mut i: usize = 0;
    while i < n
        invariant
            n == selected@.len(),
            i <= n,
            all == selection_views(selected@),
            selection_views(kept@) == without_pet(all.take(i as int), id@, version@),
        decreases n - i,
    {
        proof {
            assert(all.take(i + 1).drop_last() =~= all.take(i as int));
            assert(all.take(i + 1).last() == pet_view(selected@[i as int]));
        }
        let ghost before = kept@;
        if !same_pet(&selected[i], id, version) {
            kept.push(selected[i].clone());
            assert(selection_views(kept@) =~= selection_views(before).push(all[i as int]));
        }
        i = i + 1;
    }
    assert(all.take(n as int) =~= all);
    if kept.len() == 0 {
        kept.push(default_selected_pet());
        assert(selection_views(kept@) =~= seq![default_pet()]);
    }
    let changed = !same_selection(&kept, selected);
    (kept, changed)
}

// ---------------------------------------------------------------------------
// The pet a window shows.

/// The pet that a window renders: its own slot of the selection, the first
/// pet when that slot is empty or the window is not a pet window, and the
/// stored single selection when the list is empty.
pub open spec fn pet_for_window(
    selected: Seq<(Seq<char>, Seq<char>)>,
    fallback: (Seq<char>, Seq<char>),
    label: Seq<char>,
) -> (Seq<char>, Seq<char>) {
    let index = match window_index(label) {
        Some(i) => i as int,
        None => 0,
    };
    if index < selected.len() {
        selected[index]
    } else if selected.len() > 0 {
        selected[0]
    } else {
        fallback
    }
}

pub fn selection_for_window(selected: &Vec<SelectedPet>, fallback: &SelectedPet, label: &str) -> (r:
    SelectedPet)
    ensures
        pet_view(r) == pet_for_window(selection_views(selected@), pet_view(*fallback), label@),
{
    let index = match pet_window_index(label) {
        Some(i) => i,
        None => 0,
    };
    if index < selected.len() {
        selected[index].clone()
    } else if selected.len() > 0 {
        selected[0].clone()
    } else {
        fallback.clone()
    }
}

// ---------------------------------------------------------------------------
// Choosing a selection.

pub open spec fn invalid_choice_message() -> Seq<char> {
    "桌宠选择包含无效的 id 或版本"@
}

/// Walks the requested pets in order: a blank id or version refuses the
/// whole request; a pet already chosen is skipped; any other pet is checked
/// (its answer taken from `checks`), and a failed check refuses the request
/// naming the pet.
pub open spec fn choice_walk(pets: Seq<SelectedPet>, checks: Seq<Result<(), String>>) -> Result<
    Seq<(Seq<char>, Seq<char>)>,
    Seq<char>,
>
    decreases pets.len(),
{
    if pets.len() == 0 {
        Ok(seq![])
    } else {
        match choice_walk(pets.drop_last(), checks.drop_last()) {
            Err(m) => Err(m),
            Ok(chosen) => {
                let p = pets.last();
                if is_blank(p.id@) || is_blank(p.version@) {
                    Err(invalid_choice_message())
                } else if chosen.contains(pet_view(p)) {
                    Ok(chosen)
                } else {
                    match checks[pets.len() - 1] {
                        Err(e) => Err(p.id@ + "@"@ + p.version@ + "："@ + e@),
                        Ok(()) => Ok(chosen.push(pet_view(p))),
                    }
                }
            },
        }
    }
}

/// The walk looks up the pet at `i`.
pub open spec fn choice_checked(pets: Seq<SelectedPet>, checks: Seq<Result<(), String>>, i: int) -> bool {
    &&& choice_walk(pets.take(i), checks.take(i)) matches Ok(chosen)
    &&& !is_blank(pets[i].id@)
    &&& !is_blank(pets[i].version@)
    &&& !chosen.contains(pet_view(pets[i]))
}

/// The request's answer: the chosen pets, unless none remain or more than
/// `max_active` were chosen.
pub open spec fn choice_verdict(
    pets: Seq<SelectedPet>,
    checks: Seq<Result<(), String>>,
    max_active: nat,
) -> Result<Seq<(Seq<char>, Seq<char>)>, Seq<char>> {
    match choice_walk(pets, checks) {
        Err(m) => Err(m),
        Ok(chosen) => if chosen.len() == 0 {
            Err("至少保留一只桌宠"@)
        } else if chosen.len() > max_active {
            Err("最多同时显示 "@ + decimal(max_active) + " 只桌宠"@)
        } else {
            Ok(chosen)
        },
    }
}

fn already_chosen(chosen: &Vec<SelectedPet>, p: &SelectedPet) -> (r: bool)
    ensures
        r == selection_views(chosen@).contains(pet_view(*p)),
{
    let n = chosen.len();
    let mut i: usize = 0;
    while i < n
        invariant
            n == chosen@.len(),
            i <= n,
            forall|j: int| 0 <= j < i ==> pet_view(#[trigger] chosen@[j]) != pet_view(*p),
        decreases n - i,
    {
        if same_pet(&chosen[i], p.id.as_str(), p.version.as_str()) {
            assert(selection_views(chosen@)[i as int] == pet_view(*p));
            return true;
        }
        i = i + 1;
    }
    proof {
        let v = selection_views(chosen@);
        if v.contains(pet_view(*p)) {
            let k = choose|k: int| 0 <= k < v.len() && #[trigger] v[k] == pet_view(*p);
            assert(pet_view(chosen@[k]) == pet_view(*p));
        }
    }
    false
}

/// Chooses the pets for the desktop from a request: each new pet is first
/// checked with `check` (whether its files can be shown), so that a missing
/// package cannot leave a half-applied selection.
pub fn choose_selection<F: Fn(&SelectedPet) -> Result<(), String>>(
    pets: Vec<SelectedPet>,
    max_active: usize,
    check: F,
) -> (r: Result<Vec<SelectedPet>, String>)
    requires
        forall|p: &SelectedPet| #[trigger] check.requires((p,)),
    ensures
        exists|checks: Seq<Result<(), String>>|
            #![trigger choice_verdict(pets@, checks, max_active as nat)]
            {
                &&& checks.len() == pets@.len()
                &&& forall|i: int|
                    0 <= i < pets@.len() && choice_checked(pets@, checks, i) ==> check.ensures(
                        (&pets@[i],),
                        #[trigger] checks[i],
                    )
                &&& match choice_verdict(pets@, checks, max_active as nat) {
                    Ok(chosen) => r matches Ok(v) && selection_views(v@) == chosen,
                    Err(m) => r matches Err(x) && x@ == m,
                }
            },
{
    let ghost all = pets@;
    let mut chosen: Vec<SelectedPet> = Vec::new();
    let mut failure: Option<String> = None;
    let ghost mut checks: Seq<Result<(), String>> = seq![];
    let n = pets.len();
    let mut i: usize = 0;
    assert(all.take(0) =~= Seq::<SelectedPet>::empty());
    assert(selection_views(chosen@) =~= Seq::<(Seq<char>, Seq<char>)>::empty());
    while i < n
        invariant
            n == all.len(),
            all == pets@,
            i <= n,
            checks.len() == i,
            forall|p: &SelectedPet| #[trigger] check.requires((p,)),
            forall|j: int|
                0 <= j < i && choice_checked(all, checks, j) ==> check.ensures(
                    (&all[j],),
                    #[trigger] checks[j],
                ),
            choice_walk(all.take(i as int), checks) == (match failure {
                Some(m) => Err(m@),
                None => Ok::<_, Seq<char>>(selection_views(chosen@)),
            }),
        decreases n - i,
    {
        let p = &pets[i];
        let ghost old_checks = checks;
        let ghost old_chosen = chosen@;
        proof {
            assert(all.take(i + 1).drop_last() =~= all.take(i as int));
            assert(all.take(i + 1).last() == all[i as int]);
            assert(all.take(i as int) =~= all.take(i as int));
        }
        if failure.is_some() {
            proof {
                checks = checks.push(Ok(()));
                assert(checks.drop_last() =~= old_checks);
            }
        } else if blank(p.id.as_str()) || blank(p.version.as_str()) {
            failure = Some(String::from_str("桌宠选择包含无效的 id 或版本"));
            proof {
                checks = checks.push(Ok(()));
                assert(checks.drop_last() =~= old_checks);
            }
        } else if already_chosen(&chosen, p) {
            proof {
                checks = checks.push(Ok(()));
                assert(checks.drop_last() =~= old_checks);
            }
        } else {
            let answer = check(p);
            proof {
                checks = checks.push(answer);
                assert(checks.drop_last() =~= old_checks);
                assert(checks.take(i as int) =~= old_checks);
                assert(choice_checked(all, checks, i as int));
            }
            match answer {
                Err(e) => {
                    let mut m = p.id.clone();
                    m.append("@");
                    m.append(p.version.as_str());
                    m.append("：");
                    m.append(e.as_str());
                    failure = Some(m);
                },
                Ok(()) => {
                    chosen.push(p.clone());
                    assert(selection_views(chosen@) =~= selection_views(old_chosen).push(
                        pet_view(all[i as int]),
                    ));
                },
            }
        }
        proof {
            assert forall|j: int|
                0 <= j < i + 1 && choice_checked(all, checks, j) implies check.ensures(
                (&all[j],),
                #[trigger] checks[j],
            ) by {
                if j < i {
                    assert(checks.take(j) =~= old_checks.take(j));
                    assert(choice_checked(all, old_checks, j));
                }
            }
        }
        i = i + 1;
    }
    assert(all.take(n as int) =~= all);
    assert(choice_walk(all, checks) == (match failure {
        Some(m) => Err(m@),
        None => Ok::<_, Seq<char>>(selection_views(chosen@)),
    }));
    let ghost verdict = choice_verdict(all, checks, max_active as nat);
    match failure {
        Some(m) => Err(m),
        None => {
            if chosen.len() == 0 {
                Err(String::from_str("至少保留一只桌宠"))
            } else if chosen.len() > max_active {
                let mut m = String::from_str("最多同时显示 ");
                let count = decimal_text(max_active);
                m.append(count.as_str());
                m.append(" 只桌宠");
                Err(m)
            } else {
                Ok(chosen)
            }
        },
    }
}

// ---------------------------------------------------------------------------
// Upgrading selected pets.

/// A catalog entry offers an upgrade for pet `id` at version `current` when
/// it has the same id, its version and minimum app version parse, its
/// version is newer than `current`, and the app (version `app`) is new
/// enough for it.
pub open spec fn offers_upgrade(
    e: PetCatalogEntryV1,
    id: Seq<char>,
    current: Seq<char>,
    app: Seq<char>,
) -> bool {
    &&& e.id@ == id
    &&& semver_parses(e.version@)
    &&& semver_parses(e.min_app_version@)
    &&& semver_newer(e.version@, current)
    &&& !semver_newer(e.min_app_version@, app)
}

/// The newest offering entry, in the way `Iterator::max_by` picks it: a
/// later entry replaces the best so far unless the best so far is newer.
pub open spec fn best_upgrade(
    entries: Seq<PetCatalogEntryV1>,
    id: Seq<char>,
    current: Seq<char>,
    app: Seq<char>,
) -> Option<PetCatalogEntryV1>
    decreases entries.len(),
{
    if entries.len() == 0 {
        None
    } else {
        let best = best_upgrade(entries.drop_last(), id, current, app);
        let e = entries.last();
        if offers_upgrade(e, id, current, app) && !(best matches Some(b) && semver_newer(
            b.version@,
            e.version@,
        )) {
            Some(e)
        } else {
            best
        }
    }
}

/// An upgrade to apply: pets at `from_version` with the entry's id move to
/// the entry's version.
#[derive(Debug)]
pub struct Upgrade {
    pub from_version: String,
    pub entry: PetCatalogEntryV1,
}

/// For each selected pet, in order, that is not a local pet and whose
/// version parses: the newest catalog upgrade, if there is one.
pub open spec fn planned_upgrades(
    selected: Seq<SelectedPet>,
    entries: Seq<PetCatalogEntryV1>,
    app: Seq<char>,
) -> Seq<(Seq<char>, PetCatalogEntryV1)>
    decreases selected.len(),
{
    if selected.len() == 0 {
        seq![]
    } else {
        let rest = planned_upgrades(selected.drop_last(), entries, app);
        let p = selected.last();
        if p.version@ == "local"@ || !semver_parses(p.version@) {
            rest
        } else {
            match best_upgrade(entries, p.id@, p.version@, app) {
                Some(e) => rest.push((p.version@, e)),
                None => rest,
            }
        }
    }
}

pub open spec fn upgrade_views(v: Seq<Upgrade>) -> Seq<(Seq<char>, PetCatalogEntryV1)> {
    v.map_values(|u: Upgrade| (u.from_version@, u.entry))
}

fn best_upgrade_exec(entries: &Vec<PetCatalogEntryV1>, id: &str, current: &SemVer, app: &SemVer) -> (r:
    Option<usize>)
    ensures
        match best_upgrade(entries@, id@, current.text(), app.text()) {
            Some(e) => r matches Some(k) && k < entries@.len() && entries@[k as int] == e,
            None => r is None,
        },
{
    let mut best: Option<usize> = None;
    let mut best_version: Option<SemVer> = None;
    let n = entries.len();
    let mut i: usize = 0;
    while i < n
        invariant
            n == entries@.len(),
            i <= n,
            match best_upgrade(entries@.take(i as int), id@, current.text(), app.text()) {
                Some(e) => {
                    &&& best matches Some(k) && k < n && entries@[k as int] == e
                    &&& best_version matches Some(v) && v.text() == e.version@
                },
                None => best is None && best_version is None,
            },
        decreases n - i,
    {
        proof {
            assert(entries@.take(i + 1).drop_last() =~= entries@.take(i as int));
            assert(entries@.take(i + 1).last() == entries@[i as int]);
        }
        let e = &entries[i];
        if same_text(e.id.as_str(), id) {
            if let Some(version) = SemVer::parse(e.version.as_str()) {
                if let Some(minimum) = SemVer::parse(e.min_app_version.as_str()) {
                    if newer(&version, current) && !newer(&minimum, app) {
                        let replace = match &best_version {
                            Some(b) => !newer(b, &version),
                            None => true,
                        };
                        if replace {
                            best = Some(i);
                            best_version = Some(version);
                        }
                    }
                }
            }
        }
        i = i + 1;
    }
    assert(entries@.take(n as int) =~= entries@);
    best
}

/// Plans the upgrades of the selected pets from the catalog, for an app of
/// version `app`.
pub fn plan_upgrades(selected: &Vec<SelectedPet>, entries: &Vec<PetCatalogEntryV1>, app: &SemVer) -> (r:
    Vec<Upgrade>)
    ensures
        upgrade_views(r@) == planned_upgrades(selected@, entries@, app.text()),
{
    let mut plan: Vec<Upgrade> = Vec::new();
    let n = selected.len();
    let mut i: usize = 0;
    while i < n
        invariant
            n == selected@.len(),
            i <= n,
            upgrade_views(plan@) == planned_upgrades(selected@.take(i as int), entries@, app.text()),
        decreases n - i,
    {
        proof {
            assert(selected@.take(i + 1).drop_last() =~= selected@.take(i as int));
            assert(selected@.take(i + 1).last() == selected@[i as int]);
        }
        let p = &selected[i];
        let ghost before = plan@;
        if !same_text(p.version.as_str(), "local") {
            if let Some(current) = SemVer::parse(p.version.as_str()) {
                if let Some(k) = best_upgrade_exec(entries, p.id.as_str(), &current, app) {
                    plan.push(Upgrade { from_version: p.version.clone(), entry: entries[k].clone() });
                    assert(upgrade_views(plan@) =~= upgrade_views(before).push(
                        (p.version@, entries@[k as int]),
                    ));
                }
            }
        }
        i = i + 1;
    }
    assert(selected@.take(n as int) =~= selected@);
    plan
}

/// Moves every selected pet `id@from` to `id@to`.
pub open spec fn apply_upgrade(
    s: Seq<(Seq<char>, Seq<char>)>,
    id: Seq<char>,
    from: Seq<char>,
    to: Seq<char>,
) -> Seq<(Seq<char>, Seq<char>)> {
    s.map_values(
        |p: (Seq<char>, Seq<char>)|
            if p.0 == id && p.1 == from {
                (p.0, to)
            } else {
                p
            },
    )
}

/// Applies the upgrades in order.
pub open spec fn apply_upgrades_spec(
    s: Seq<(Seq<char>, Seq<char>)>,
    ups: Seq<(Seq<char>, PetCatalogEntryV1)>,
) -> Seq<(Seq<char>, Seq<char>)>
    decreases ups.len(),
{
    if ups.len() == 0 {
        s
    } else {
        let u = ups.last();
        apply_upgrade(apply_upgrades_spec(s, ups.drop_last()), u.1.id@, u.0, u.1.version@)
    }
}

/// Whether some upgrade, applied in order, met a pet to move.
pub open spec fn upgrades_touch(
    s: Seq<(Seq<char>, Seq<char>)>,
    ups: Seq<(Seq<char>, PetCatalogEntryV1)>,
) -> bool
    decreases ups.len(),
{
    if ups.len() == 0 {
        false
    } else {
        let u = ups.last();
        upgrades_touch(s, ups.drop_last()) || apply_upgrades_spec(s, ups.drop_last()).contains(
            (u.1.id@, u.0),
        )
    }
}

/// Applies planned upgrades to the selection; the answer says whether any
/// pet moved.
pub fn apply_upgrades(selected: &mut Vec<SelectedPet>, upgrades: &Vec<Upgrade>) -> (changed: bool)
    ensures
        selection_views(final(selected)@) == apply_upgrades_spec(
            selection_views(old(selected)@),
            upgrade_views(upgrades@),
        ),
        changed == upgrades_touch(selection_views(old(selected)@), upgrade_views(upgrades@)),
{
    let ghost start = selection_views(selected@);
    let ghost ups = upgrade_views(upgrades@);
    let mut changed = false;
    let m = upgrades.len();
    let mut u: usize = 0;
    while u < m
        invariant
            m == upgrades@.len(),
            u <= m,
            ups == upgrade_views(upgrades@),
            start == selection_views(old(selected)@),
            selection_views(selected@) == apply_upgrades_spec(start, ups.take(u as int)),
            changed == upgrades_touch(start, ups.take(u as int)),
        decreases m - u,
    {
        proof {
            assert(ups.take(u + 1).drop_last() =~= ups.take(u as int));
            assert(ups.take(u + 1).last() == ups[u as int]);
        }
        let up = &upgrades[u];
        let ghost before = selection_views(selected@);
        let ghost target = (up.entry.id@, up.from_version@);
        let n = selected.len();
        let mut touched = false;
        let mut i: usize = 0;
        while i < n
            invariant
                n == selected@.len(),
                i <= n,
                before.len() == n,
                forall|j: int|
                    0 <= j < n ==> #[trigger] pet_view(selected@[j]) == (if j < i {
                        apply_upgrade(before, up.entry.id@, up.from_version@, up.entry.version@)[j]
                    } else {
                        before[j]
                    }),
                touched == exists|j: int| 0 <= j < i && #[trigger] before[j] == target,
                target == (up.entry.id@, up.from_version@),
            decreases n - i,
        {
            assert(pet_view(selected@[i as int]) == before[i as int]);
            if same_pet(&selected[i], up.entry.id.as_str(), up.from_version.as_str()) {
                assert(before[i as int] == target);
                let moved = SelectedPet { id: selected[i].id.clone(), version: up.entry.version.clone() };
                selected.set(i, moved);
                touched = true;
            } else {
                assert(before[i as int] != target);
            }
            assert(forall|j: int| 0 <= j < i + 1 && #[trigger] before[j] == target ==> j < i || j == i);
            i = i + 1;
        }
        proof {
            assert(selection_views(selected@) =~= apply_upgrade(
                before,
                up.entry.id@,
                up.from_version@,
                up.entry.version@,
            ));
            if touched {
                let j = choose|j: int| 0 <= j < n && #[trigger] before[j] == target;
                assert(before.contains(target));
            }
            if before.contains(target) {
                let j = choose|j: int| 0 <= j < before.len() && #[trigger] before[j] == target;
                assert(touched);
            }
        }
        changed = changed || touched;
        u = u + 1;
    }
    assert(ups.take(m as int) =~= ups);
    changed
}

} // verus!
