//! Pet window labels and the built-in pets.

use vstd::prelude::*;
use crate::text::{
    decimal, decimal_text, lemma_decimal_parses, parse_unsigned, parse_unsigned_exec, same_text,
    starts_with, strip_prefix_exec, contains_text,
};

verus! {

/// The label of the pet window for selection slot `index`: the first slot
/// uses the window `pet`, slot `i` the window `pet-(i+1)`.
pub open spec fn window_label(index: nat) -> Seq<char> {
    if index == 0 {
        "pet"@
    } else {
        "pet-"@ + decimal(index + 1)
    }
}

/// The selection slot a window label stands for: `pet` is slot 0, and
/// `pet-n` is slot `n - 1` when `n` is at least 2 (a `usize`) written the
/// way `pet_window_label` writes it, in plain decimal digits without a
/// sign or leading zeros. Other labels are not pet windows.
pub open spec fn window_index(label: Seq<char>) -> Option<nat> {
    if label == "pet"@ {
        Some(0)
    } else if starts_with(label, "pet-"@) {
        let rest = label.subrange(4, label.len() as int);
        match parse_unsigned(rest, usize::MAX as nat) {
            Some(n) => if n >= 2 && rest == decimal(n) {
                Some((n - 1) as nat)
            } else {
                None
            },
            None => None,
        }
    } else {
        None
    }
}

pub fn pet_window_label(index: usize) -> (r: String)
    requires
        index < usize::MAX,
    ensures
        r@ == window_label(index as nat),
{
    if index == 0 {
        String::from_str("pet")
    } else {
        let mut label = String::from_str("pet-");
        let number = decimal_text(index + 1);
        label.append(number.as_str());
        label
    }
}

pub fn pet_window_index(label: &str) -> (r: Option<usize>)
    ensures
        match window_index(label@) {
            Some(i) => r == Some(i as usize),
            None => r is None,
        },
{
    proof {
        reveal_strlit("pet-");
    }
    if same_text(label, "pet") {
        return Some(0);
    }
    let rest = match strip_prefix_exec(label, "pet-") {
        Some(rest) => rest,
        None => return None,
    };
    let number = match parse_unsigned_exec(rest.as_str(), usize::MAX as u64) {
        Some(n) => n,
        None => return None,
    };
    if number < 2 {
        return None;
    }
    let written = decimal_text(number as usize);
    if !same_text(rest.as_str(), written.as_str()) {
        return None;
    }
    Some((number - 1) as usize)
}

/// Whether a window label names a pet window.
pub fn is_pet_window(label: &str) -> (r: bool)
    ensures
        r == window_index(label@) is Some,
{
    pet_window_index(label).is_some()
}

/// The pet windows that a selection of `count` pets needs, in slot order.
pub fn desired_window_labels(count: usize) -> (r: Vec<String>)
    requires
        count < usize::MAX,
    ensures
        r@.len() == count,
        forall|i: int| 0 <= i < count ==> (#[trigger] r@[i])@ == window_label(i as nat),
{
    let mut labels: Vec<String> = Vec::new();
    let mut i: usize = 0;
    while i < count
        invariant
            i <= count < usize::MAX,
            labels@.len() == i,
            forall|j: int| 0 <= j < i ==> (#[trigger] labels@[j])@ == window_label(j as nat),
        decreases count - i,
    {
        labels.push(pet_window_label(i));
        i = i + 1;
    }
    labels
}

pub open spec fn label_views(v: Seq<String>) -> Seq<Seq<char>> {
    v.map_values(|s: String| s@)
}

/// The open pet windows that no selected pet needs, in the order given.
pub open spec fn surplus_labels(open: Seq<Seq<char>>, desired: Seq<Seq<char>>) -> Seq<Seq<char>>
    decreases open.len(),
{
    if open.len() == 0 {
        seq![]
    } else {
        let rest = surplus_labels(open.drop_last(), desired);
        let label = open.last();
        if window_index(label) is Some && !desired.contains(label) {
            rest.push(label)
        } else {
            rest
        }
    }
}

/// The labels of the open windows to close: pet windows whose label is not
/// among the desired ones.
pub fn surplus_pet_windows(open: &Vec<String>, desired: &Vec<String>) -> (r: Vec<String>)
    ensures
        label_views(r@) == surplus_labels(label_views(open@), label_views(desired@)),
{
    let ghost all = label_views(open@);
    let mut closing: Vec<String> = Vec::new();
    let n = open.len();
    let mut i: usize = 0;
    while i < n
        invariant
            n == open@.len(),
            i <= n,
            all == label_views(open@),
            label_views(closing@) == surplus_labels(all.take(i as int), label_views(desired@)),
        decreases n - i,
    {
        proof {
            assert(all.take(i + 1).drop_last() =~= all.take(i as int));
            assert(all.take(i + 1).last() == open@[i as int]@);
        }
        let label = open[i].as_str();
        let ghost before = closing@;
        if is_pet_window(label) && !contains_text(desired, label) {
            closing.push(open[i].clone());
            assert(label_views(closing@) =~= label_views(before).push(open@[i as int]@));
        }
        i = i + 1;
    }
    assert(all.take(n as int) =~= all);
    closing
}

/// The atlas version of a pet shipped with the app, if `id@version` is one.
pub open spec fn bundled_sprite_version(id: Seq<char>, version: Seq<char>) -> Option<u8> {
    if (id == "yanghao"@ && version == "1.0.0"@) || (id == "lev-neon"@ && version == "1.0.0"@) {
        Some(2u8)
    } else {
        None
    }
}

pub fn bundled_pet_sprite_version(id: &str, version: &str) -> (r: Option<u8>)
    ensures
        r == bundled_sprite_version(id@, version@),
{
    if same_text(id, "yanghao") && same_text(version, "1.0.0") {
        return Some(2);
    }
    if same_text(id, "lev-neon") && same_text(version, "1.0.0") {
        return Some(2);
    }
    None
}

/// A window that fills its monitor is a full-screen app, except the Windows
/// desktop itself (`Progman`, `WorkerW`).
pub open spec fn fullscreen_window_class(class_name: Seq<char>, fills_monitor: bool) -> bool {
    fills_monitor && class_name != "Progman"@ && class_name != "WorkerW"@
}

/// Whether the foreground window is a full-screen app.
pub fn is_fullscreen_window_class(class_name: &str, fills_monitor: bool) -> (r: bool)
    ensures
        r == fullscreen_window_class(class_name@, fills_monitor),
{
    fills_monitor && !same_text(class_name, "Progman") && !same_text(class_name, "WorkerW")
}

/// Window labels and slots correspond one to one: a label stands for a
/// slot exactly when it is the label made for that slot.
pub proof fn lemma_window_label_round_trip(label: Seq<char>, index: nat)
    requires
        index < usize::MAX,
    ensures
        window_index(label) == Some(index) <==> label == window_label(index),
{
    reveal_strlit("pet");
    reveal_strlit("pet-");
    if index > 0 {
        let made = window_label(index);
        lemma_decimal_parses(index + 1);
        assert(made.len() >= 5);
        assert(made != "pet"@);
        assert(made.subrange(0, 4) =~= "pet-"@);
        assert(made.subrange(4, made.len() as int) =~= decimal(index + 1));
        assert(window_index(made) == Some(index));
    }
    if window_index(label) == Some(index) && label != "pet"@ {
        let rest = label.subrange(4, label.len() as int);
        assert(label =~= "pet-"@ + rest);
        assert(rest == decimal(index + 1));
    }
}

} // verus!
