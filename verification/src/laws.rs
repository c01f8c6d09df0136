//! Properties that hold across calls: what sanitizing, snoozing,
//! uninstalling, dragging, scanning and validating guarantee for every
//! input.

use vstd::prelude::*;
use crate::settings::{
    default_reminder_views, is_valid_daily_time, kept_reminders, reminder_is_kept, sanitized_reminders,
    ReminderView, ScheduleView,
};
use crate::text::{is_blank, is_white_space};
use crate::reminders::{is_eligible, is_snoozed, select_due, set_all, snooze_millis};
use crate::selection::{default_pet, selection_after_uninstall, without_pet};
use crate::motion::{
    drag_events_spec, fresh_drag, observe_spec, tick_spec, DragDirection, DragObservation, DragProgress, MotionEngine,
    MotionPhase, TickInputs, TickPlan,
};
use crate::catalog::{catalog_walk, entry_key, PetCatalogEntryV1};
use crate::pets::{
    is_allowed_file, listing_state, listing_verdict, spritesheet_verdict, EntryView,
    package_listing_verdict, readable_prefix, zip_listing,
};
use crate::pets::{
    first_folder_with_id, folders_sorted, id_count, reserved_pet_id, scan_walk, unique_pets, FolderScan,
    LocalPetView,
};
use crate::text::{lemma_text_less_order, text_less};
use crate::pets::FolderOutcome;
use crate::catalog::{semver_newer, semver_parses};
use crate::selection::{best_upgrade, offers_upgrade, planned_upgrades};
use crate::settings::SelectedPet;

verus! {

proof fn lemma_kept_are_kept(s: Seq<ReminderView>)
    ensures
        forall|i: int|
            0 <= i < kept_reminders(s).len() ==> reminder_is_kept(#[trigger] kept_reminders(s)[i])
                && kept_reminders(s)[i].snooze_minutes == 5,
    decreases s.len(),
{
    if s.len() > 0 {
        lemma_kept_are_kept(s.drop_last());
    }
}

proof fn lemma_kept_of_clean(s: Seq<ReminderView>)
    requires
        forall|i: int| 0 <= i < s.len() ==> reminder_is_kept(#[trigger] s[i]) && s[i].snooze_minutes == 5,
    ensures
        kept_reminders(s) == s,
    decreases s.len(),
{
    if s.len() > 0 {
        assert forall|i: int| 0 <= i < s.drop_last().len() implies reminder_is_kept(
            #[trigger] s.drop_last()[i],
        ) && s.drop_last()[i].snooze_minutes == 5 by {
            assert(s.drop_last()[i] == s[i]);
        }
        lemma_kept_of_clean(s.drop_last());
        assert(reminder_is_kept(s[s.len() - 1]));
        assert(s.drop_last().push(s.last()) =~= s);
    }
}

proof fn lemma_not_blank(s: Seq<char>, i: int)
    requires
        0 <= i < s.len(),
        !is_white_space(s[i]),
    ensures
        !is_blank(s),
{
}

proof fn lemma_defaults_are_clean()
    ensures
        forall|i: int|
            0 <= i < default_reminder_views().len() ==> reminder_is_kept(
                #[trigger] default_reminder_views()[i],
            ) && default_reminder_views()[i].snooze_minutes == 5,
{
    reveal_strlit("eye-rest");
    reveal_strlit("看看远处");
    reveal_strlit("water");
    reveal_strlit("喝口水吧");
    reveal_strlit("stretch");
    reveal_strlit("起来走走吧");
    lemma_not_blank("eye-rest"@, 0);
    lemma_not_blank("看看远处"@, 0);
    lemma_not_blank("water"@, 0);
    lemma_not_blank("喝口水吧"@, 0);
    lemma_not_blank("stretch"@, 0);
    lemma_not_blank("起来走走吧"@, 0);
}

/// Sanitizing never leaves the reminder list empty, and every reminder it
/// keeps meets the keeping rule with a five-minute snooze.
pub proof fn lemma_sanitized_reminders_are_clean(s: Seq<ReminderView>)
    ensures
        sanitized_reminders(s).len() > 0,
        forall|i: int|
            0 <= i < sanitized_reminders(s).len() ==> reminder_is_kept(
                #[trigger] sanitized_reminders(s)[i],
            ) && sanitized_reminders(s)[i].snooze_minutes == 5,
{
    lemma_kept_are_kept(s);
    lemma_defaults_are_clean();
}

/// Sanitizing twice gives what sanitizing once gives.
pub proof fn lemma_sanitize_is_idempotent(s: Seq<ReminderView>)
    ensures
        sanitized_reminders(sanitized_reminders(s)) == sanitized_reminders(s),
{
    lemma_sanitized_reminders_are_clean(s);
    lemma_kept_of_clean(sanitized_reminders(s));
}

// ---------------------------------------------------------------------------
// Snoozing.

proof fn lemma_set_all_sets(m: Map<Seq<char>, i64>, ids: Seq<Seq<char>>, at: i64, id: Seq<char>)
    requires
        ids.contains(id),
    ensures
        set_all(m, ids, at).contains_key(id),
        set_all(m, ids, at)[id] == at,
    decreases ids.len(),
{
    if ids.last() != id {
        assert(ids.drop_last().contains(id)) by {
            let k = choose|k: int| 0 <= k < ids.len() && ids[k] == id;
            assert(k < ids.len() - 1);
            assert(ids.drop_last()[k] == id);
        }
        lemma_set_all_sets(m, ids.drop_last(), at, id);
    }
}

proof fn lemma_selected_are_eligible(
    rs: Seq<ReminderView>,
    dues: Seq<Option<i64>>,
    snoozed: Map<Seq<char>, i64>,
    now: i64,
    horizon: int,
)
    ensures
        forall|k: int|
            0 <= k < select_due(rs, dues, snoozed, now, horizon).len() ==> is_eligible(
                #[trigger] select_due(rs, dues, snoozed, now, horizon)[k],
                snoozed,
                now,
            ),
    decreases rs.len(),
{
    if rs.len() > 0 {
        lemma_selected_are_eligible(rs.drop_last(), dues.drop_last(), snoozed, now, horizon);
        let rest = select_due(rs.drop_last(), dues.drop_last(), snoozed, now, horizon);
        let all = select_due(rs, dues, snoozed, now, horizon);
        assert forall|k: int| 0 <= k < all.len() implies is_eligible(#[trigger] all[k], snoozed, now) by {
            if k < rest.len() {
                assert(all[k] == rest[k]);
            }
        }
    }
}

/// A reminder snoozed at `snoozed_at` is left out of every due check for
/// the next five minutes, whatever its schedule says.
pub proof fn lemma_snoozed_reminders_stay_quiet(
    rs: Seq<ReminderView>,
    dues: Seq<Option<i64>>,
    snoozed: Map<Seq<char>, i64>,
    ids: Seq<Seq<char>>,
    snoozed_at: i64,
    now: i64,
    horizon: int,
)
    requires
        snoozed_at + snooze_millis() <= i64::MAX,
        now < snoozed_at + snooze_millis(),
    ensures
        forall|k: int|
            0 <= k < select_due(
                rs,
                dues,
                set_all(snoozed, ids, (snoozed_at + snooze_millis()) as i64),
                now,
                horizon,
            ).len() ==> !ids.contains(
                (#[trigger] select_due(
                    rs,
                    dues,
                    set_all(snoozed, ids, (snoozed_at + snooze_millis()) as i64),
                    now,
                    horizon,
                )[k]).id,
            ),
{
    let until = (snoozed_at + snooze_millis()) as i64;
    let after = set_all(snoozed, ids, until);
    lemma_selected_are_eligible(rs, dues, after, now, horizon);
    assert forall|k: int| 0 <= k < select_due(rs, dues, after, now, horizon).len() implies !ids.contains(
        (#[trigger] select_due(rs, dues, after, now, horizon)[k]).id,
    ) by {
        let r = select_due(rs, dues, after, now, horizon)[k];
        if ids.contains(r.id) {
            lemma_set_all_sets(snoozed, ids, until, r.id);
            assert(is_snoozed(after, r.id, now));
        }
    }
}

// ---------------------------------------------------------------------------
// Uninstalling.

proof fn lemma_without_pet_contains(
    s: Seq<(Seq<char>, Seq<char>)>,
    id: Seq<char>,
    version: Seq<char>,
    p: (Seq<char>, Seq<char>),
)
    ensures
        without_pet(s, id, version).contains(p) <==> (s.contains(p) && p != (id, version)),
    decreases s.len(),
{
    if s.len() > 0 {
        let init = s.drop_last();
        lemma_without_pet_contains(init, id, version, p);
        let rest = without_pet(init, id, version);
        let all = without_pet(s, id, version);
        assert(s =~= init.push(s.last()));
        assert(s.contains(p) <==> (init.contains(p) || s.last() == p)) by {
            if s.contains(p) {
                let k = choose|k: int| 0 <= k < s.len() && s[k] == p;
                if k < init.len() {
                    assert(init[k] == p);
                }
            }
            if init.contains(p) {
                let k = choose|k: int| 0 <= k < init.len() && init[k] == p;
                assert(s[k] == p);
            }
            if s.last() == p {
                assert(s[s.len() - 1] == p);
            }
        }
        if s.last() == (id, version) {
            assert(all == rest);
        } else {
            assert(all == rest.push(s.last()));
            assert(all.contains(p) <==> (rest.contains(p) || s.last() == p)) by {
                if all.contains(p) {
                    let k = choose|k: int| 0 <= k < all.len() && all[k] == p;
                    if k < rest.len() {
                        assert(rest[k] == p);
                    }
                }
                if rest.contains(p) {
                    let k = choose|k: int| 0 <= k < rest.len() && rest[k] == p;
                    assert(all[k] == p);
                }
                if s.last() == p {
                    assert(all[rest.len() as int] == p);
                }
            }
        }
    }
}

/// Uninstalling a pet never leaves the selection empty, takes every entry
/// for that pet out of it (unless it is the default companion that stands
/// in for an empty selection), and keeps every other selected pet.
pub proof fn lemma_uninstall_drops_only_that_pet(
    s: Seq<(Seq<char>, Seq<char>)>,
    id: Seq<char>,
    version: Seq<char>,
)
    ensures
        selection_after_uninstall(s, id, version).len() > 0,
        (id, version) != default_pet() ==> !selection_after_uninstall(s, id, version).contains(
            (id, version),
        ),
        forall|p: (Seq<char>, Seq<char>)|
            s.contains(p) && p != (id, version) ==> #[trigger] selection_after_uninstall(
                s,
                id,
                version,
            ).contains(p),
{
    lemma_without_pet_contains(s, id, version, (id, version));
    if without_pet(s, id, version).len() == 0 {
        assert(seq![default_pet()][0] == default_pet());
        assert forall|p: (Seq<char>, Seq<char>)|
            s.contains(p) && p != (id, version) implies #[trigger] selection_after_uninstall(
            s,
            id,
            version,
        ).contains(p) by {
            lemma_without_pet_contains(s, id, version, p);
        }
    } else {
        assert forall|p: (Seq<char>, Seq<char>)|
            s.contains(p) && p != (id, version) implies #[trigger] selection_after_uninstall(
            s,
            id,
            version,
        ).contains(p) by {
            lemma_without_pet_contains(s, id, version, p);
        }
    }
}

// ---------------------------------------------------------------------------
// Dragging.

/// A drag reports its movement at most once and starts its animation at
/// most once: once reported or started, later samples do not do it again,
/// and a sample that does it records that it did.
pub proof fn lemma_drag_reports_once(
    p: DragProgress,
    travelled: bool,
    heading: Option<DragDirection>,
    animate: bool,
)
    ensures
        ({
            let (next, seen) = observe_spec(p, travelled, heading, animate);
            &&& p.movement_reported ==> !seen.moved
            &&& p.movement_reported ==> next.movement_reported
            &&& seen.moved ==> next.movement_reported
            &&& p.started && p.visual_started ==> !seen.start_visual
            &&& p.visual_started && p.started ==> next.visual_started
            &&& seen.start_visual ==> next.visual_started
            &&& next.started
        }),
{
}

// ---------------------------------------------------------------------------
// Scanning the custom pet folder.

proof fn lemma_walk_avoids_reserved(folders: Seq<FolderScan>)
    ensures
        forall|k: int|
            0 <= k < scan_walk(folders).0.len() ==> (#[trigger] scan_walk(folders).0[k]).id
                != reserved_pet_id(),
    decreases folders.len(),
{
    if folders.len() > 0 {
        lemma_walk_avoids_reserved(folders.drop_last());
        let before = scan_walk(folders.drop_last()).0;
        let after = scan_walk(folders).0;
        assert forall|k: int| 0 <= k < after.len() implies (#[trigger] after[k]).id != reserved_pet_id() by {
            if k < before.len() {
                assert(after[k] == before[k]);
            }
        }
    }
}

proof fn lemma_count_push(s: Seq<LocalPetView>, x: LocalPetView, id: Seq<char>)
    ensures
        id_count(s.push(x), id) == id_count(s, id) + if x.id == id {
            1nat
        } else {
            0nat
        },
{
    assert(s.push(x).drop_last() =~= s);
}

proof fn lemma_unique_counts(p: Seq<LocalPetView>, all: Seq<LocalPetView>, id: Seq<char>)
    ensures
        id_count(unique_pets(p, all), id) <= id_count(p, id),
        id_count(all, id) != 1 ==> id_count(unique_pets(p, all), id) == 0,
    decreases p.len(),
{
    if p.len() > 0 {
        lemma_unique_counts(p.drop_last(), all, id);
        let rest = unique_pets(p.drop_last(), all);
        if id_count(all, p.last().id) == 1 {
            lemma_count_push(rest, p.last(), id);
        }
    }
}

proof fn lemma_count_positive(s: Seq<LocalPetView>, i: int)
    requires
        0 <= i < s.len(),
    ensures
        id_count(s, s[i].id) >= 1,
    decreases s.len(),
{
    if i < s.len() - 1 {
        lemma_count_positive(s.drop_last(), i);
        assert(s.drop_last()[i] == s[i]);
    }
}

proof fn lemma_count_two(s: Seq<LocalPetView>, i: int, j: int)
    requires
        0 <= i < j < s.len(),
        s[i].id == s[j].id,
    ensures
        id_count(s, s[i].id) >= 2,
    decreases s.len(),
{
    assert(s.drop_last()[i] == s[i]);
    if j == s.len() - 1 {
        lemma_count_positive(s.drop_last(), i);
    } else {
        assert(s.drop_last()[j] == s[j]);
        lemma_count_two(s.drop_last(), i, j);
    }
}

proof fn lemma_unique_from(p: Seq<LocalPetView>, all: Seq<LocalPetView>)
    ensures
        forall|k: int| 0 <= k < unique_pets(p, all).len() ==> p.contains(#[trigger] unique_pets(p, all)[k]),
    decreases p.len(),
{
    if p.len() > 0 {
        lemma_unique_from(p.drop_last(), all);
        let rest = unique_pets(p.drop_last(), all);
        let u = unique_pets(p, all);
        assert forall|k: int| 0 <= k < u.len() implies p.contains(#[trigger] u[k]) by {
            if k < rest.len() {
                assert(u[k] == rest[k]);
                let j = choose|j: int| 0 <= j < p.drop_last().len() && p.drop_last()[j] == rest[k];
                assert(p[j] == u[k]);
            } else {
                assert(u[k] == p[p.len() - 1]);
            }
        }
    }
}

/// The pets a folder scan returns have distinct ids, and none of them uses
/// the id reserved for the built-in pet.
pub proof fn lemma_local_scan_ids_are_unique(folders: Seq<FolderScan>)
    ensures
        ({
            let found = scan_walk(folders).0;
            let pets = unique_pets(found, found);
            &&& forall|i: int, j: int|
                0 <= i < j < pets.len() ==> (#[trigger] pets[i]).id != (#[trigger] pets[j]).id
            &&& forall|k: int| 0 <= k < pets.len() ==> (#[trigger] pets[k]).id != reserved_pet_id()
        }),
{
    let found = scan_walk(folders).0;
    let pets = unique_pets(found, found);
    lemma_walk_avoids_reserved(folders);
    lemma_unique_from(found, found);
    assert forall|k: int| 0 <= k < pets.len() implies (#[trigger] pets[k]).id != reserved_pet_id() by {
        let j = choose|j: int| 0 <= j < found.len() && found[j] == pets[k];
        assert(found[j].id != reserved_pet_id());
    }
    assert forall|i: int, j: int| 0 <= i < j < pets.len() implies (#[trigger] pets[i]).id != (
    #[trigger] pets[j]).id by {
        if pets[i].id == pets[j].id {
            lemma_count_two(pets, i, j);
            lemma_unique_counts(found, found, pets[i].id);
        }
    }
}

// ---------------------------------------------------------------------------
// Validation.

/// A catalog walk that succeeds has seen each entry's `id@version` once:
/// the keys are pairwise distinct, and the answer is exactly their set.
pub proof fn lemma_accepted_catalog_keys_are_distinct(
    entries: Seq<PetCatalogEntryV1>,
    app: Seq<char>,
)
    requires
        catalog_walk(entries, app) is Ok,
    ensures
        forall|i: int, j: int|
            0 <= i < j < entries.len() ==> entry_key(#[trigger] entries[i]) != entry_key(
                #[trigger] entries[j],
            ),
        forall|key: Seq<char>|
            #[trigger] catalog_walk(entries, app)->Ok_0.contains(key) <==> exists|i: int|
                0 <= i < entries.len() && entry_key(#[trigger] entries[i]) == key,
    decreases entries.len(),
{
    if entries.len() > 0 {
        let init = entries.drop_last();
        lemma_accepted_catalog_keys_are_distinct(init, app);
        let keys = catalog_walk(init, app)->Ok_0;
        let last = entries.last();
        assert(!keys.contains(entry_key(last)));
        assert forall|i: int, j: int| 0 <= i < j < entries.len() implies entry_key(
            #[trigger] entries[i],
        ) != entry_key(#[trigger] entries[j]) by {
            assert(entries[i] == init[i]);
            if j < entries.len() - 1 {
                assert(entries[j] == init[j]);
            } else {
                assert(keys.contains(entry_key(init[i])));
            }
        }
        assert forall|key: Seq<char>| #[trigger] catalog_walk(entries, app)->Ok_0.contains(key) <==> exists|i: int|
            0 <= i < entries.len() && entry_key(#[trigger] entries[i]) == key by {
            if catalog_walk(entries, app)->Ok_0.contains(key) {
                if key == entry_key(last) {
                    assert(entry_key(entries[entries.len() - 1]) == key);
                } else {
                    let i = choose|i: int| 0 <= i < init.len() && entry_key(#[trigger] init[i]) == key;
                    assert(entries[i] == init[i]);
                }
            }
            if exists|i: int| 0 <= i < entries.len() && entry_key(#[trigger] entries[i]) == key {
                let i = choose|i: int| 0 <= i < entries.len() && entry_key(#[trigger] entries[i]) == key;
                if i < entries.len() - 1 {
                    assert(entries[i] == init[i]);
                }
            }
        }
    }
}

/// An accepted spritesheet's version is the one declared, when one is
/// declared; and declaring the version the atlas has changes nothing.
pub proof fn lemma_spritesheet_version_agrees(bytes: Seq<u8>, declared: u8)
    ensures
        spritesheet_verdict(bytes, Some(declared)) matches Some(v) ==> v == declared,
        spritesheet_verdict(bytes, None) == Some(declared) ==> spritesheet_verdict(
            bytes,
            Some(declared),
        ) == Some(declared),
        spritesheet_verdict(bytes, Some(declared)) is Some ==> spritesheet_verdict(bytes, None)
            == spritesheet_verdict(bytes, Some(declared)),
{
}

/// The entry is a file called `name`.
pub open spec fn entry_named(e: EntryView, name: Seq<char>) -> bool {
    e.0 == Some(name)
}

proof fn lemma_listing_entries_are_files(entries: Seq<EntryView>, maximum: u64)
    requires
        listing_state(entries, maximum) is Ok,
    ensures
        forall|k: int|
            0 <= k < entries.len() ==> {
                let e = #[trigger] entries[k];
                &&& e.0 matches Some(name) && is_allowed_file(name)
                &&& e.1 == 1
                &&& !e.2
            },
        forall|name: Seq<char>|
            #[trigger] listing_state(entries, maximum)->Ok_0.0.contains(name) ==> exists|k: int|
                0 <= k < entries.len() && entry_named(entries[k], name),
        listing_state(entries, maximum)->Ok_0.1 <= maximum,
        forall|k: int|
            0 <= k < entries.len() ==> listing_state(entries, maximum)->Ok_0.0.contains(
                (#[trigger] entries[k]).0->Some_0,
            ),
        forall|i: int, j: int| 0 <= i < j < entries.len() ==> (#[trigger] entries[i]).0 != (#[trigger] entries[j]).0,
    decreases entries.len(),
{
    if entries.len() > 0 {
        let init = entries.drop_last();
        lemma_listing_entries_are_files(init, maximum);
        let seen = listing_state(init, maximum)->Ok_0.0;
        assert forall|k: int| 0 <= k < entries.len() implies listing_state(entries, maximum)->Ok_0.0.contains(
            (#[trigger] entries[k]).0->Some_0,
        ) by {
            if k < init.len() {
                assert(entries[k] == init[k]);
            }
        }
        assert forall|i: int, j: int| 0 <= i < j < entries.len() implies (#[trigger] entries[i]).0 != (
        #[trigger] entries[j]).0 by {
            assert(entries[i] == init[i]);
            if j < init.len() {
                assert(entries[j] == init[j]);
            } else {
                assert(seen.contains(init[i].0->Some_0));
            }
        }
        assert forall|k: int| 0 <= k < entries.len() implies {
            let e = #[trigger] entries[k];
            &&& e.0 matches Some(name) && is_allowed_file(name)
            &&& e.1 == 1
            &&& !e.2
        } by {
            if k < init.len() {
                assert(entries[k] == init[k]);
            }
        }
        assert forall|name: Seq<char>| #[trigger] listing_state(entries, maximum)->Ok_0.0.contains(name) implies exists|k: int|
            0 <= k < entries.len() && entry_named(entries[k], name) by {
            if listing_state(init, maximum)->Ok_0.0.contains(name) {
                let k = choose|k: int|
                    0 <= k < init.len() && entry_named(init[k], name);
                assert(entries[k] == init[k]);
            } else {
                assert(entries[entries.len() - 1] == entries.last());
            }
        }
    }
}

/// An accepted package listing holds only the allowed files, each a single
/// name at the top of the package and not a folder, none twice, among them
/// `pet.json` and `spritesheet.webp`, with sizes that add up to at most
/// `maximum`.
pub proof fn lemma_accepted_listing_is_well_formed(entries: Seq<EntryView>, maximum: u64)
    requires
        listing_verdict(entries, maximum) is Ok,
    ensures
        forall|k: int|
            0 <= k < entries.len() ==> {
                let e = #[trigger] entries[k];
                &&& e.0 matches Some(name) && is_allowed_file(name)
                &&& e.1 == 1
                &&& !e.2
            },
        exists|k: int|
            0 <= k < entries.len() && entry_named(#[trigger] entries[k], "pet.json"@),
        exists|k: int|
            0 <= k < entries.len() && entry_named(#[trigger] entries[k], "spritesheet.webp"@),
        listing_state(entries, maximum)->Ok_0.1 <= maximum,
        forall|i: int, j: int| 0 <= i < j < entries.len() ==> (#[trigger] entries[i]).0 != (#[trigger] entries[j]).0,
{
    lemma_listing_entries_are_files(entries, maximum);
    let seen = listing_state(entries, maximum)->Ok_0.0;
    assert(seen.contains("pet.json"@));
    assert(seen.contains("spritesheet.webp"@));
}

// ---------------------------------------------------------------------------
// A whole drag.

/// The observations of a run of drag samples (travelled, heading, animate),
/// fed one by one to a drag in state `p`, and the state after them.
pub open spec fn drag_run(p: DragProgress, samples: Seq<(bool, Option<DragDirection>, bool)>) -> (
    DragProgress,
    Seq<DragObservation>,
)
    decreases samples.len(),
{
    if samples.len() == 0 {
        (p, seq![])
    } else {
        let (q, seen) = drag_run(p, samples.drop_last());
        let s = samples.last();
        let (next, o) = observe_spec(q, s.0, s.1, s.2);
        (next, seen.push(o))
    }
}

/// Some sample after the first, before sample `n`, travelled past the
/// threshold.
pub open spec fn travelled_before(samples: Seq<(bool, Option<DragDirection>, bool)>, n: int) -> bool
    decreases n,
{
    if n <= 1 {
        false
    } else {
        travelled_before(samples, n - 1) || samples[n - 1].0
    }
}

/// Some sample before sample `n` asked for animation.
pub open spec fn animated_before(samples: Seq<(bool, Option<DragDirection>, bool)>, n: int) -> bool
    decreases n,
{
    if n <= 0 {
        false
    } else {
        animated_before(samples, n - 1) || samples[n - 1].2
    }
}

proof fn lemma_drag_run_state(samples: Seq<(bool, Option<DragDirection>, bool)>)
    ensures
        drag_run(fresh_drag(), samples).1.len() == samples.len(),
        drag_run(fresh_drag(), samples).0.started == (samples.len() > 0),
        drag_run(fresh_drag(), samples).0.movement_reported == travelled_before(
            samples,
            samples.len() as int,
        ),
        drag_run(fresh_drag(), samples).0.visual_started == animated_before(
            samples,
            samples.len() as int,
        ),
    decreases samples.len(),
{
    if samples.len() > 0 {
        let init = samples.drop_last();
        lemma_drag_run_state(init);
        lemma_before_prefix(samples, init, init.len() as int);
    }
}

proof fn lemma_before_prefix(
    samples: Seq<(bool, Option<DragDirection>, bool)>,
    prefix: Seq<(bool, Option<DragDirection>, bool)>,
    n: int,
)
    requires
        0 <= n <= prefix.len() <= samples.len(),
        forall|j: int| 0 <= j < prefix.len() ==> prefix[j] == samples[j],
    ensures
        travelled_before(prefix, n) == travelled_before(samples, n),
        animated_before(prefix, n) == animated_before(samples, n),
    decreases n,
{
    if n > 0 {
        lemma_before_prefix(samples, prefix, n - 1);
    }
}

proof fn lemma_drag_run_step(samples: Seq<(bool, Option<DragDirection>, bool)>, i: int)
    requires
        0 <= i < samples.len(),
    ensures
        drag_run(fresh_drag(), samples).1[i] == observe_spec(
            drag_run(fresh_drag(), samples.take(i)).0,
            samples[i].0,
            samples[i].1,
            samples[i].2,
        ).1,
    decreases samples.len(),
{
    lemma_drag_run_state(samples.drop_last());
    if i < samples.len() - 1 {
        lemma_drag_run_step(samples.drop_last(), i);
        assert(samples.drop_last().take(i) =~= samples.take(i));
    } else {
        assert(samples.drop_last() =~= samples.take(i));
    }
}

proof fn lemma_before_grows(samples: Seq<(bool, Option<DragDirection>, bool)>, i: int, j: int)
    requires
        0 <= i < j <= samples.len(),
    ensures
        i >= 1 && samples[i].0 ==> travelled_before(samples, j),
        samples[i].2 ==> animated_before(samples, j),
    decreases j,
{
    if j > i + 1 {
        lemma_before_grows(samples, i, j - 1);
    }
}

/// Over a whole drag: the first sample reports no movement and no heading
/// and starts the animation exactly when it asks for animation; movement
/// is reported exactly at the first later sample that travelled past the
/// threshold, so at most once; the animation starts exactly at the first
/// sample that asks for it, so at most once; and a sample without
/// animation has no heading and starts no animation.
pub proof fn lemma_drag_run(samples: Seq<(bool, Option<DragDirection>, bool)>)
    ensures
        ({
            let seen = drag_run(fresh_drag(), samples).1;
            &&& seen.len() == samples.len()
            &&& samples.len() > 0 ==> !seen[0].moved && seen[0].direction is None
                && seen[0].start_visual == samples[0].2
            &&& forall|i: int|
                0 <= i < samples.len() ==> (#[trigger] seen[i]).moved == (i >= 1 && samples[i].0
                    && !travelled_before(samples, i))
            &&& forall|i: int|
                0 <= i < samples.len() ==> (#[trigger] seen[i]).start_visual == (samples[i].2
                    && !animated_before(samples, i))
            &&& forall|i: int|
                0 <= i < samples.len() && !samples[i].2 ==> (#[trigger] seen[i]).direction is None
                    && !seen[i].start_visual
            &&& forall|i: int, j: int|
                0 <= i < j < samples.len() ==> !((#[trigger] seen[i]).moved && (#[trigger] seen[j]).moved)
            &&& forall|i: int, j: int|
                0 <= i < j < samples.len() ==> !((#[trigger] seen[i]).start_visual
                    && (#[trigger] seen[j]).start_visual)
        }),
{
    let seen = drag_run(fresh_drag(), samples).1;
    lemma_drag_run_state(samples);
    assert forall|i: int| 0 <= i < samples.len() implies {
        &&& (#[trigger] seen[i]).moved == (i >= 1 && samples[i].0 && !travelled_before(samples, i))
        &&& seen[i].start_visual == (samples[i].2 && !animated_before(samples, i))
        &&& (!samples[i].2 ==> seen[i].direction is None && !seen[i].start_visual)
        &&& (i == 0 ==> seen[i].direction is None)
    } by {
        lemma_drag_run_step(samples, i);
        lemma_drag_run_state(samples.take(i));
        lemma_before_prefix(samples, samples.take(i), i);
    }
    assert forall|i: int, j: int| 0 <= i < j < samples.len() implies !((#[trigger] seen[i]).moved
        && (#[trigger] seen[j]).moved) && !(seen[i].start_visual && seen[j].start_visual) by {
        lemma_before_grows(samples, i, j);
    }
}

// ---------------------------------------------------------------------------
// Looking a pet up in a scan.

proof fn lemma_first_folder(pets: Seq<LocalPetView>, id: Seq<char>)
    ensures
        first_folder_with_id(pets, id) is Some <==> exists|k: int|
            0 <= k < pets.len() && (#[trigger] pets[k]).id == id,
        first_folder_with_id(pets, id) matches Some(f) ==> exists|k: int|
            0 <= k < pets.len() && (#[trigger] pets[k]).id == id && pets[k].folder_name == f,
    decreases pets.len(),
{
    if pets.len() > 0 {
        let init = pets.drop_last();
        lemma_first_folder(init, id);
        if exists|k: int| 0 <= k < pets.len() && (#[trigger] pets[k]).id == id {
            let k = choose|k: int| 0 <= k < pets.len() && (#[trigger] pets[k]).id == id;
            if k < init.len() {
                assert(init[k].id == id);
            }
        }
        if exists|k: int| 0 <= k < init.len() && (#[trigger] init[k]).id == id {
            let k = choose|k: int| 0 <= k < init.len() && (#[trigger] init[k]).id == id;
            assert(pets[k] == init[k]);
        }
        match first_folder_with_id(init, id) {
            Some(f) => {
                let k = choose|k: int|
                    0 <= k < init.len() && (#[trigger] init[k]).id == id && init[k].folder_name == f;
                assert(pets[k] == init[k]);
            },
            None => {
                assert(pets[pets.len() - 1] == pets.last());
            },
        }
    }
}

/// The pets are in strictly increasing order of their folder names.
pub open spec fn pets_in_name_order(p: Seq<LocalPetView>) -> bool {
    forall|i: int, j: int|
        0 <= i < j < p.len() ==> text_less((#[trigger] p[i]).folder_name, (#[trigger] p[j]).folder_name)
}

/// No two folder entries share a name.
pub open spec fn distinct_folder_names(folders: Seq<FolderScan>) -> bool {
    forall|i: int, j: int|
        0 <= i < j < folders.len() ==> (#[trigger] folders[i]).folder_name@ != (
        #[trigger] folders[j]).folder_name@
}

/// Some folder entry has this name.
pub open spec fn has_folder_named(folders: Seq<FolderScan>, name: Seq<char>) -> bool {
    exists|j: int| 0 <= j < folders.len() && (#[trigger] folders[j]).folder_name@ == name
}

proof fn lemma_walk_in_name_order(folders: Seq<FolderScan>)
    requires
        folders_sorted(folders),
        distinct_folder_names(folders),
    ensures
        pets_in_name_order(scan_walk(folders).0),
        forall|k: int|
            0 <= k < scan_walk(folders).0.len() ==> has_folder_named(
                folders,
                (#[trigger] scan_walk(folders).0[k]).folder_name,
            ),
    decreases folders.len(),
{
    if folders.len() > 0 {
        let d = folders.drop_last();
        assert forall|i: int, j: int| 0 <= i < j < d.len() implies !text_less(
            (#[trigger] d[j]).folder_name@,
            (#[trigger] d[i]).folder_name@,
        ) && d[i].folder_name@ != d[j].folder_name@ by {
            assert(d[i] == folders[i] && d[j] == folders[j]);
        }
        lemma_walk_in_name_order(d);
        let before = scan_walk(d).0;
        let after = scan_walk(folders).0;
        let last = folders.last().folder_name@;
        assert forall|k: int| 0 <= k < before.len() implies text_less(
            (#[trigger] before[k]).folder_name,
            last,
        ) && has_folder_named(folders, before[k].folder_name) by {
            assert(has_folder_named(d, before[k].folder_name));
            let j = choose|j: int| 0 <= j < d.len() && (#[trigger] d[j]).folder_name@ == before[k].folder_name;
            assert(d[j] == folders[j]);
            assert(folders[folders.len() - 1].folder_name@ == last);
            lemma_text_less_order(before[k].folder_name, last, last);
        }
        assert forall|i: int, j: int| 0 <= i < j < after.len() implies text_less(
            (#[trigger] after[i]).folder_name,
            (#[trigger] after[j]).folder_name,
        ) by {
            if j < before.len() {
                assert(after[i] == before[i] && after[j] == before[j]);
            } else {
                assert(after[i] == before[i]);
            }
        }
        assert forall|k: int| 0 <= k < after.len() implies has_folder_named(
            folders,
            (#[trigger] after[k]).folder_name,
        ) by {
            if k < before.len() {
                assert(after[k] == before[k]);
            } else {
                assert(folders[folders.len() - 1].folder_name@ == after[k].folder_name);
            }
        }
    }
}

proof fn lemma_unique_in_name_order(p: Seq<LocalPetView>, all: Seq<LocalPetView>)
    requires
        pets_in_name_order(p),
    ensures
        pets_in_name_order(unique_pets(p, all)),
    decreases p.len(),
{
    if p.len() > 0 {
        let d = p.drop_last();
        assert forall|i: int, j: int| 0 <= i < j < d.len() implies text_less(
            (#[trigger] d[i]).folder_name,
            (#[trigger] d[j]).folder_name,
        ) by {
            assert(d[i] == p[i] && d[j] == p[j]);
        }
        lemma_unique_in_name_order(d, all);
        lemma_unique_from(d, all);
        let rest = unique_pets(d, all);
        let u = unique_pets(p, all);
        assert forall|i: int, j: int| 0 <= i < j < u.len() implies text_less(
            (#[trigger] u[i]).folder_name,
            (#[trigger] u[j]).folder_name,
        ) by {
            assert(u[i] == rest[i]);
            if j >= rest.len() {
                let m = choose|m: int| 0 <= m < d.len() && d[m] == rest[i];
                assert(p[m] == rest[i]);
                assert(u[j] == p[p.len() - 1]);
            } else {
                assert(u[j] == rest[j]);
            }
        }
    }
}

proof fn lemma_distinct_names_kept(given: Seq<FolderScan>, s: Seq<FolderScan>)
    requires
        s.to_multiset() == given.to_multiset(),
        distinct_folder_names(given),
    ensures
        distinct_folder_names(s),
{
    assert(given.no_duplicates()) by {
        assert forall|i: int, j: int| 0 <= i < given.len() && 0 <= j < given.len() && i != j implies given[i]
            != given[j] by {
            if i < j {
                assert(given[i].folder_name@ != given[j].folder_name@);
            } else {
                assert(given[j].folder_name@ != given[i].folder_name@);
            }
        }
    }
    given.lemma_multiset_has_no_duplicates();
    s.lemma_multiset_has_no_duplicates_conv();
    s.to_multiset_ensures();
    given.to_multiset_ensures();
    assert forall|i: int, j: int| 0 <= i < j < s.len() implies (#[trigger] s[i]).folder_name@ != (
    #[trigger] s[j]).folder_name@ by {
        assert(s.contains(s[i]) && s.contains(s[j]));
        assert(s.to_multiset().count(s[i]) > 0 && s.to_multiset().count(s[j]) > 0);
        let a = choose|a: int| 0 <= a < given.len() && given[a] == s[i];
        let b = choose|b: int| 0 <= b < given.len() && given[b] == s[j];
        assert(s[i] != s[j]);
        if a < b {
            assert(given[a].folder_name@ != given[b].folder_name@);
        } else {
            assert(given[b].folder_name@ != given[a].folder_name@);
        }
    }
}

/// Scanning folder entries given in any order with no name twice (as a
/// directory listing has them), through the name-ordered arrangement that
/// `scan_folders` works on, gives the pets in strictly increasing
/// folder-name order.
pub proof fn lemma_local_scan_in_name_order(given: Seq<FolderScan>, s: Seq<FolderScan>)
    requires
        s.to_multiset() == given.to_multiset(),
        folders_sorted(s),
        distinct_folder_names(given),
    ensures
        ({
            let found = scan_walk(s).0;
            pets_in_name_order(unique_pets(found, found))
        }),
{
    let found = scan_walk(s).0;
    lemma_distinct_names_kept(given, s);
    lemma_walk_in_name_order(s);
    lemma_unique_in_name_order(found, found);
}

/// Looking a pet up by id in a folder scan finds a folder exactly when the
/// scan holds a pet with that id; that pet is the only one with the id and
/// the folder is its folder. The reserved id, and an id that two valid
/// folders claim, are never found.
pub proof fn lemma_scan_lookup(folders: Seq<FolderScan>, id: Seq<char>)
    ensures
        ({
            let found = scan_walk(folders).0;
            let pets = unique_pets(found, found);
            &&& first_folder_with_id(pets, id) is Some <==> exists|k: int|
                0 <= k < pets.len() && (#[trigger] pets[k]).id == id
            &&& first_folder_with_id(pets, id) matches Some(f) ==> exists|k: int|
                0 <= k < pets.len() && (#[trigger] pets[k]).id == id && pets[k].folder_name == f
                    && forall|j: int| 0 <= j < pets.len() && (#[trigger] pets[j]).id == id ==> j == k
            &&& id == reserved_pet_id() ==> first_folder_with_id(pets, id) is None
            &&& id_count(found, id) >= 2 ==> first_folder_with_id(pets, id) is None
        }),
{
    let found = scan_walk(folders).0;
    let pets = unique_pets(found, found);
    lemma_first_folder(pets, id);
    lemma_local_scan_ids_are_unique(folders);
    if let Some(f) = first_folder_with_id(pets, id) {
        let k = choose|k: int| 0 <= k < pets.len() && (#[trigger] pets[k]).id == id && pets[k].folder_name == f;
        assert forall|j: int| 0 <= j < pets.len() && (#[trigger] pets[j]).id == id implies j == k by {
            if j < k {
                assert(pets[j].id != pets[k].id);
            } else if j > k {
                assert(pets[k].id != pets[j].id);
            }
        }
    }
    if id_count(found, id) >= 2 {
        lemma_unique_counts(found, found, id);
        if exists|k: int| 0 <= k < pets.len() && (#[trigger] pets[k]).id == id {
            let k = choose|k: int| 0 <= k < pets.len() && (#[trigger] pets[k]).id == id;
            lemma_count_positive(pets, k);
        }
    }
}

/// An archive entry that was read and is an allowed file at the top of
/// the package, not a folder.
pub open spec fn read_allowed_file(x: Result<EntryView, Seq<char>>) -> bool {
    x matches Ok(e) && e.0 matches Some(name) && is_allowed_file(name) && e.1 == 1 && !e.2
}

/// An archive entry that was read and is called `name`.
pub open spec fn read_entry_named(x: Result<EntryView, Seq<char>>, name: Seq<char>) -> bool {
    x matches Ok(e) && e.0 == Some(name)
}

proof fn lemma_readable_prefix_whole(s: Seq<Result<EntryView, Seq<char>>>)
    requires
        readable_prefix(s).1 is None,
    ensures
        readable_prefix(s).0.len() == s.len(),
        forall|k: int| 0 <= k < s.len() ==> s[k] == Ok::<EntryView, Seq<char>>(#[trigger] readable_prefix(s).0[k]),
    decreases s.len(),
{
    if s.len() > 0 {
        let init = s.drop_last();
        if readable_prefix(init).1 is Some {
            assert(readable_prefix(s).1 is Some);
        }
        lemma_readable_prefix_whole(init);
        let p = readable_prefix(s).0;
        assert forall|k: int| 0 <= k < s.len() implies s[k] == Ok::<EntryView, Seq<char>>(#[trigger] p[k]) by {
            if k < init.len() {
                assert(s[k] == init[k]);
            }
        }
    }
}

/// The archive rule: every entry of an accepted package reads, and is one
/// of the allowed files at the top of the package, not a folder; no name
/// comes twice; among them are `pet.json` and `spritesheet.webp`; and the
/// package is within the size limit.
pub proof fn lemma_accepted_package_is_well_formed(bytes: Seq<u8>, maximum: u64)
    requires
        package_listing_verdict(bytes, maximum) is Ok,
    ensures
        bytes.len() <= maximum,
        zip_listing(bytes) is Ok,
        forall|k: int|
            0 <= k < zip_listing(bytes)->Ok_0.len() ==> read_allowed_file(
                #[trigger] zip_listing(bytes)->Ok_0[k],
            ),
        exists|k: int|
            0 <= k < zip_listing(bytes)->Ok_0.len() && read_entry_named(
                #[trigger] zip_listing(bytes)->Ok_0[k],
                "pet.json"@,
            ),
        exists|k: int|
            0 <= k < zip_listing(bytes)->Ok_0.len() && read_entry_named(
                #[trigger] zip_listing(bytes)->Ok_0[k],
                "spritesheet.webp"@,
            ),
        forall|i: int, j: int|
            0 <= i < j < zip_listing(bytes)->Ok_0.len() ==> (#[trigger] zip_listing(bytes)->Ok_0[i])->Ok_0.0
                != (#[trigger] zip_listing(bytes)->Ok_0[j])->Ok_0.0,
{
    let s = zip_listing(bytes)->Ok_0;
    let prefix = readable_prefix(s).0;
    lemma_readable_prefix_whole(s);
    lemma_accepted_listing_is_well_formed(prefix, maximum);
    assert forall|k: int| 0 <= k < s.len() implies read_allowed_file(#[trigger] s[k]) by {
        assert(s[k] == Ok::<EntryView, Seq<char>>(prefix[k]));
    }
    assert forall|i: int, j: int| 0 <= i < j < s.len() implies (#[trigger] s[i])->Ok_0.0 != (
    #[trigger] s[j])->Ok_0.0 by {
        assert(s[i] == Ok::<EntryView, Seq<char>>(prefix[i]));
        assert(s[j] == Ok::<EntryView, Seq<char>>(prefix[j]));
    }
    let a = choose|k: int| 0 <= k < prefix.len() && entry_named(#[trigger] prefix[k], "pet.json"@);
    assert(s[a] == Ok::<EntryView, Seq<char>>(prefix[a]));
    let b = choose|k: int| 0 <= k < prefix.len() && entry_named(#[trigger] prefix[k], "spritesheet.webp"@);
    assert(s[b] == Ok::<EntryView, Seq<char>>(prefix[b]));
}

// ---------------------------------------------------------------------------
// A run of motion ticks.

/// The plans of a run of motion ticks from engine `e`, and the engine after
/// them.
pub open spec fn tick_run(e: MotionEngine, inputs: Seq<TickInputs>) -> (MotionEngine, Seq<TickPlan>)
    decreases inputs.len(),
{
    if inputs.len() == 0 {
        (e, seq![])
    } else {
        let (before, plans) = tick_run(e, inputs.drop_last());
        let (after, plan) = tick_spec(before, inputs.last());
        (after, plans.push(plan))
    }
}

/// The pet is hidden this tick: paused, or behind a full-screen app.
pub open spec fn hidden_tick(i: TickInputs) -> bool {
    i.paused || (i.fullscreen && i.hide_in_fullscreen)
}

/// A shown tick on which the pet is not being dragged.
pub open spec fn settled_tick(i: TickInputs) -> bool {
    !hidden_tick(i) && !i.dragging
}

/// Before tick `n`, a shown dragging tick came with no settled tick after
/// it.
pub open spec fn drag_pending(inputs: Seq<TickInputs>, n: int) -> bool
    decreases n,
{
    if n <= 0 {
        false
    } else if hidden_tick(inputs[n - 1]) {
        drag_pending(inputs, n - 1)
    } else {
        inputs[n - 1].dragging
    }
}

proof fn lemma_tick_run_state(e: MotionEngine, inputs: Seq<TickInputs>)
    requires
        !e.was_dragging,
    ensures
        tick_run(e, inputs).1.len() == inputs.len(),
        tick_run(e, inputs).0.was_dragging == drag_pending(inputs, inputs.len() as int),
    decreases inputs.len(),
{
    if inputs.len() > 0 {
        let init = inputs.drop_last();
        lemma_tick_run_state(e, init);
        lemma_pending_prefix(inputs, init, init.len() as int);
    }
}

proof fn lemma_pending_prefix(inputs: Seq<TickInputs>, prefix: Seq<TickInputs>, n: int)
    requires
        0 <= n <= prefix.len() <= inputs.len(),
        forall|j: int| 0 <= j < prefix.len() ==> prefix[j] == inputs[j],
    ensures
        drag_pending(prefix, n) == drag_pending(inputs, n),
    decreases n,
{
    if n > 0 {
        lemma_pending_prefix(inputs, prefix, n - 1);
    }
}

proof fn lemma_tick_run_len(e: MotionEngine, inputs: Seq<TickInputs>)
    ensures
        tick_run(e, inputs).1.len() == inputs.len(),
    decreases inputs.len(),
{
    if inputs.len() > 0 {
        lemma_tick_run_len(e, inputs.drop_last());
    }
}

proof fn lemma_tick_run_step(e: MotionEngine, inputs: Seq<TickInputs>, i: int)
    requires
        0 <= i < inputs.len(),
    ensures
        (tick_run(e, inputs.take(i + 1)).0, tick_run(e, inputs).1[i]) == tick_spec(
            tick_run(e, inputs.take(i)).0,
            inputs[i],
        ),
    decreases inputs.len(),
{
    lemma_tick_run_len(e, inputs.drop_last());
    if i < inputs.len() - 1 {
        lemma_tick_run_step(e, inputs.drop_last(), i);
        assert(inputs.drop_last().take(i) =~= inputs.take(i));
        assert(inputs.drop_last().take(i + 1) =~= inputs.take(i + 1));
    } else {
        assert(inputs.drop_last() =~= inputs.take(i));
        assert(inputs.take(i + 1) =~= inputs);
    }
}

proof fn lemma_pending_needs_drag(inputs: Seq<TickInputs>, i: int, j: int)
    requires
        0 <= i < j <= inputs.len(),
        settled_tick(inputs[i]),
        drag_pending(inputs, j),
    ensures
        exists|k: int| i < k < j && inputs[k].dragging && !hidden_tick(inputs[k]),
    decreases j,
{
    if hidden_tick(inputs[j - 1]) {
        lemma_pending_needs_drag(inputs, i, j - 1);
        let k = choose|k: int| i < k < j - 1 && inputs[k].dragging && !hidden_tick(inputs[k]);
        assert(i < k < j);
    } else {
        assert(j - 1 != i);
    }
}

/// Over a run of motion ticks from an engine that is not dragging: a tick
/// announces the end of a drag exactly when it is shown, not dragging, and
/// a shown dragging tick came since the last such tick; that tick forgets
/// the drag (its progress, its reported movement and its animation); and
/// between two announced ends there is a dragging tick, so each drag ends
/// once. A hidden tick shows nothing and a shown dragging tick follows the
/// drag.
pub proof fn lemma_tick_run(e: MotionEngine, inputs: Seq<TickInputs>)
    requires
        !e.was_dragging,
    ensures
        ({
            let plans = tick_run(e, inputs).1;
            &&& plans.len() == inputs.len()
            &&& forall|i: int|
                0 <= i < inputs.len() ==> (#[trigger] plans[i]).drag_ended == (settled_tick(inputs[i])
                    && drag_pending(inputs, i))
            &&& forall|i: int|
                0 <= i < inputs.len() && (#[trigger] plans[i]).drag_ended ==> {
                    let after = tick_run(e, inputs.take(i + 1)).0;
                    &&& !after.was_dragging
                    &&& !after.drag_moved
                    &&& after.drag_animation is None
                    &&& after.drag == fresh_drag()
                }
            &&& forall|i: int|
                0 <= i < inputs.len() && hidden_tick(inputs[i]) ==> (#[trigger] plans[i]).phase
                    == MotionPhase::Hidden
            &&& forall|i: int|
                0 <= i < inputs.len() && !hidden_tick(inputs[i]) && inputs[i].dragging ==> (
                #[trigger] plans[i]).phase == MotionPhase::Dragging
            &&& forall|i: int, j: int|
                0 <= i < j < inputs.len() && (#[trigger] plans[i]).drag_ended && (
                #[trigger] plans[j]).drag_ended ==> exists|k: int|
                    i < k < j && inputs[k].dragging && !hidden_tick(inputs[k])
        }),
{
    let plans = tick_run(e, inputs).1;
    lemma_tick_run_state(e, inputs);
    assert forall|i: int| 0 <= i < inputs.len() implies {
        &&& (#[trigger] plans[i]).drag_ended == (settled_tick(inputs[i]) && drag_pending(inputs, i))
        &&& (plans[i].drag_ended ==> {
            let after = tick_run(e, inputs.take(i + 1)).0;
            &&& !after.was_dragging
            &&& !after.drag_moved
            &&& after.drag_animation is None
            &&& after.drag == fresh_drag()
        })
        &&& (hidden_tick(inputs[i]) ==> plans[i].phase == MotionPhase::Hidden)
        &&& (!hidden_tick(inputs[i]) && inputs[i].dragging ==> plans[i].phase == MotionPhase::Dragging)
    } by {
        lemma_tick_run_step(e, inputs, i);
        lemma_tick_run_state(e, inputs.take(i));
        lemma_pending_prefix(inputs, inputs.take(i), i);
    }
    assert forall|i: int, j: int|
        0 <= i < j < inputs.len() && (#[trigger] plans[i]).drag_ended && (#[trigger] plans[j]).drag_ended
        implies exists|k: int| i < k < j && inputs[k].dragging && !hidden_tick(inputs[k]) by {
        lemma_pending_needs_drag(inputs, i, j);
    }
}

// ---------------------------------------------------------------------------
// What sanitizing keeps.

proof fn lemma_kept_contains(s: Seq<ReminderView>, i: int)
    requires
        0 <= i < s.len(),
        reminder_is_kept(s[i]),
    ensures
        kept_reminders(s).contains((ReminderView { snooze_minutes: 5, ..s[i] })),
    decreases s.len(),
{
    let want = ReminderView { snooze_minutes: 5, ..s[i] };
    let rest = kept_reminders(s.drop_last());
    if i == s.len() - 1 {
        assert(kept_reminders(s) == rest.push(want));
        assert(kept_reminders(s)[rest.len() as int] == want);
    } else {
        assert(s.drop_last()[i] == s[i]);
        lemma_kept_contains(s.drop_last(), i);
        let j = choose|j: int| 0 <= j < rest.len() && rest[j] == want;
        if reminder_is_kept(s.last()) {
            assert(kept_reminders(s)[j] == want);
        }
    }
}

/// Sanitizing keeps every reminder with a non-blank id and title and an
/// interval of 1 to 1440 minutes or a well-formed daily `HH:MM` time,
/// whether it is enabled or not: it appears in the result with all its
/// fields, enabled flag included, and a five-minute snooze.
pub proof fn lemma_sanitize_keeps_valid_reminders(s: Seq<ReminderView>, i: int)
    requires
        0 <= i < s.len(),
        !is_blank(s[i].id),
        !is_blank(s[i].title),
        match s[i].schedule {
            ScheduleView::Interval { minutes } => 1 <= minutes <= 1440,
            ScheduleView::Daily { at } => is_valid_daily_time(at),
        },
    ensures
        exists|j: int|
            0 <= j < sanitized_reminders(s).len() && {
                let r = #[trigger] sanitized_reminders(s)[j];
                &&& r.id == s[i].id
                &&& r.title == s[i].title
                &&& r.message == s[i].message
                &&& r.enabled == s[i].enabled
                &&& r.schedule == s[i].schedule
                &&& r.snooze_minutes == 5
            },
{
    lemma_kept_contains(s, i);
    let want = ReminderView { snooze_minutes: 5, ..s[i] };
    let kept = kept_reminders(s);
    let j = choose|j: int| 0 <= j < kept.len() && kept[j] == want;
    assert(sanitized_reminders(s) == kept);
    assert(sanitized_reminders(s)[j] == want);
}

// ---------------------------------------------------------------------------
// Where scanned pets come from.

/// Folder entry `f` holds a valid pet that `p` describes: the folder's
/// name, the pet's id, display name, description and atlas version, the
/// spritesheet path found there, and the version `local`.
pub open spec fn pet_from_folder(f: FolderScan, p: LocalPetView) -> bool {
    &&& f.folder_name@ == p.folder_name
    &&& p.version == "local"@
    &&& match f.outcome {
        FolderOutcome::Valid { pet, spritesheet_path } => {
            &&& pet.id@ == p.id
            &&& pet.display_name@ == p.display_name
            &&& pet.description@ == p.description
            &&& pet.sprite_version_number == p.sprite_version_number
            &&& spritesheet_path == p.spritesheet_path
        },
        _ => false,
    }
}

proof fn lemma_walk_pets_from_folders(folders: Seq<FolderScan>)
    ensures
        forall|k: int|
            0 <= k < scan_walk(folders).0.len() ==> exists|j: int|
                0 <= j < folders.len() && pet_from_folder(folders[j], #[trigger] scan_walk(folders).0[k]),
    decreases folders.len(),
{
    if folders.len() > 0 {
        let d = folders.drop_last();
        lemma_walk_pets_from_folders(d);
        let before = scan_walk(d).0;
        let after = scan_walk(folders).0;
        assert forall|k: int| 0 <= k < after.len() implies exists|j: int|
            0 <= j < folders.len() && pet_from_folder(folders[j], #[trigger] after[k]) by {
            if k < before.len() {
                assert(after[k] == before[k]);
                let j = choose|j: int| 0 <= j < d.len() && pet_from_folder(d[j], before[k]);
                assert(folders[j] == d[j]);
            } else {
                assert(pet_from_folder(folders[folders.len() - 1], after[k]));
            }
        }
    }
}

/// Every pet a folder scan returns is the valid pet of one of its folder
/// entries, with that folder's name, the pet's own id, display name,
/// description and atlas version, and the spritesheet found there.
pub proof fn lemma_scan_pets_come_from_their_folders(folders: Seq<FolderScan>)
    ensures
        ({
            let found = scan_walk(folders).0;
            let pets = unique_pets(found, found);
            forall|k: int|
                0 <= k < pets.len() ==> exists|j: int|
                    0 <= j < folders.len() && pet_from_folder(folders[j], #[trigger] pets[k])
        }),
{
    let found = scan_walk(folders).0;
    let pets = unique_pets(found, found);
    lemma_walk_pets_from_folders(folders);
    lemma_unique_from(found, found);
    assert forall|k: int| 0 <= k < pets.len() implies exists|j: int|
        0 <= j < folders.len() && pet_from_folder(folders[j], #[trigger] pets[k]) by {
        let m = choose|m: int| 0 <= m < found.len() && found[m] == pets[k];
        assert(exists|j: int| 0 <= j < folders.len() && pet_from_folder(folders[j], found[m]));
    }
}

// ---------------------------------------------------------------------------
// The drag animation's heading.

/// A drag sample whose observed direction differs from the animation shown
/// announces that direction and shows it from then on; a sample with no
/// direction, or the direction already shown, announces none and keeps the
/// animation as it was.
pub proof fn lemma_drag_heading_follows_direction(e: MotionEngine, o: DragObservation)
    ensures
        ({
            let (after, events) = drag_events_spec(e, o);
            &&& forall|d: DragDirection|
                o.direction == Some(d) && e.drag_animation != Some(d) ==> events.heading == Some(d)
                    && after.drag_animation == Some(d)
            &&& (o.direction is None || o.direction == e.drag_animation) ==> events.heading is None
                && after.drag_animation == e.drag_animation
            &&& after.drag == e.drag
        }),
{
}

// ---------------------------------------------------------------------------
// The newest upgrade.

/// How `semver::Version`'s derived `Ord` orders the versions that texts
/// parse to, as `semver_newer` reads it: no version is newer than itself,
/// newer is one way only, and a version no newer than a second, which is
/// no newer than a third, is no newer than the third.
pub open spec fn semver_is_ordered() -> bool {
    &&& forall|a: Seq<char>| semver_parses(a) ==> !#[trigger] semver_newer(a, a)
    &&& forall|a: Seq<char>, b: Seq<char>|
        semver_parses(a) && semver_parses(b) && #[trigger] semver_newer(a, b) ==> !semver_newer(b, a)
    &&& forall|a: Seq<char>, b: Seq<char>, c: Seq<char>|
        #![trigger semver_newer(a, b), semver_newer(b, c)]
        semver_parses(a) && semver_parses(b) && semver_parses(c) && !semver_newer(a, b)
            && !semver_newer(b, c) ==> !semver_newer(a, c)
}

/// With versions ordered as semver orders them, the upgrade chosen for a
/// pet is a catalog entry that offers one, and no entry that offers one
/// has a newer version; when none is chosen, no entry offers one.
pub proof fn lemma_best_upgrade_is_newest(
    entries: Seq<PetCatalogEntryV1>,
    id: Seq<char>,
    current: Seq<char>,
    app: Seq<char>,
)
    requires
        semver_is_ordered(),
    ensures
        match best_upgrade(entries, id, current, app) {
            Some(b) => {
                &&& entries.contains(b)
                &&& offers_upgrade(b, id, current, app)
                &&& forall|k: int|
                    0 <= k < entries.len() && offers_upgrade(#[trigger] entries[k], id, current, app)
                        ==> !semver_newer(entries[k].version@, b.version@)
            },
            None => forall|k: int| 0 <= k < entries.len() ==> !offers_upgrade(#[trigger] entries[k], id, current, app),
        },
    decreases entries.len(),
{
    if entries.len() > 0 {
        let d = entries.drop_last();
        lemma_best_upgrade_is_newest(d, id, current, app);
        let e = entries.last();
        let before = best_upgrade(d, id, current, app);
        let last = entries.len() - 1;
        assert(entries[last] == e);
        assert forall|k: int| 0 <= k < d.len() implies entries[k] == #[trigger] d[k] by {}
        match best_upgrade(entries, id, current, app) {
            Some(b) => {
                if b == e && offers_upgrade(e, id, current, app) && !(before matches Some(c) && semver_newer(
                    c.version@,
                    e.version@,
                )) {
                    assert forall|k: int|
                        0 <= k < entries.len() && offers_upgrade(#[trigger] entries[k], id, current, app)
                            implies !semver_newer(entries[k].version@, b.version@) by {
                        if k < last {
                            assert(offers_upgrade(d[k], id, current, app));
                            let c = before->Some_0;
                            assert(!semver_newer(d[k].version@, c.version@));
                            assert(!semver_newer(c.version@, e.version@));
                        }
                    }
                    assert(entries.contains(b));
                } else {
                    assert(before == Some(b));
                    let j = choose|j: int| 0 <= j < d.len() && d[j] == b;
                    assert(entries[j] == b);
                    assert forall|k: int|
                        0 <= k < entries.len() && offers_upgrade(#[trigger] entries[k], id, current, app)
                            implies !semver_newer(entries[k].version@, b.version@) by {
                        if k < last {
                            assert(offers_upgrade(d[k], id, current, app));
                        } else {
                            assert(semver_newer(b.version@, e.version@));
                        }
                    }
                }
            },
            None => {
                assert forall|k: int| 0 <= k < entries.len() implies !offers_upgrade(
                    #[trigger] entries[k],
                    id,
                    current,
                    app,
                ) by {
                    if k < last {
                        assert(!offers_upgrade(d[k], id, current, app));
                    }
                }
            },
        }
    }
}

/// With versions ordered as semver orders them, each planned upgrade moves
/// a pet from its version to a catalog entry for that pet, and no catalog
/// entry that offers that pet an upgrade from that version has a newer
/// version than the one planned.
pub proof fn lemma_planned_upgrades_are_newest(
    selected: Seq<SelectedPet>,
    entries: Seq<PetCatalogEntryV1>,
    app: Seq<char>,
)
    requires
        semver_is_ordered(),
    ensures
        ({
            let plan = planned_upgrades(selected, entries, app);
            forall|k: int|
                0 <= k < plan.len() ==> {
                    let (from, b) = #[trigger] plan[k];
                    &&& entries.contains(b)
                    &&& offers_upgrade(b, b.id@, from, app)
                    &&& forall|j: int|
                        0 <= j < entries.len() && offers_upgrade(#[trigger] entries[j], b.id@, from, app)
                            ==> !semver_newer(entries[j].version@, b.version@)
                }
        }),
    decreases selected.len(),
{
    if selected.len() > 0 {
        let d = selected.drop_last();
        lemma_planned_upgrades_are_newest(d, entries, app);
        let p = selected.last();
        lemma_best_upgrade_is_newest(entries, p.id@, p.version@, app);
        let rest = planned_upgrades(d, entries, app);
        let plan = planned_upgrades(selected, entries, app);
        assert forall|k: int| 0 <= k < plan.len() implies {
            let (from, b) = #[trigger] plan[k];
            &&& entries.contains(b)
            &&& offers_upgrade(b, b.id@, from, app)
            &&& forall|j: int|
                0 <= j < entries.len() && offers_upgrade(#[trigger] entries[j], b.id@, from, app)
                    ==> !semver_newer(entries[j].version@, b.version@)
        } by {
            if k < rest.len() {
                assert(plan[k] == rest[k]);
            }
        }
    }
}

} // verus!
