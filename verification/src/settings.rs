//! Persisted settings: the reminder list and its hygiene rules, the pet
//! selection entries, and where the settings file lives.

use vstd::prelude::*;
use crate::text::{blank, is_blank, parse_unsigned, parse_unsigned_exec, split_once, split_once_exec};

verus! {

/// A standard-library path buffer; the library only stores and hands it back.
#[verifier::external_type_specification]
#[verifier::external_body]
pub struct ExPathBuf(std::path::PathBuf);

/// A pet chosen for the desktop, named by id and version.
#[derive(Debug)]
pub struct SelectedPet {
    pub id: String,
    pub version: String,
}

impl Clone for SelectedPet {
    fn clone(&self) -> (r: Self)
        ensures
            r == *self,
    {
        SelectedPet { id: self.id.clone(), version: self.version.clone() }
    }
}

/// When a reminder comes due.
#[derive(Debug)]
pub enum ReminderSchedule {
    Interval { minutes: u32 },
    Daily { at: String },
}

impl Clone for ReminderSchedule {
    fn clone(&self) -> (r: Self)
        ensures
            r == *self,
    {
        match self {
            ReminderSchedule::Interval { minutes } => ReminderSchedule::Interval { minutes: *minutes },
            ReminderSchedule::Daily { at } => ReminderSchedule::Daily { at: at.clone() },
        }
    }
}

#[derive(Debug)]
pub struct Reminder {
    pub id: String,
    pub title: String,
    pub message: String,
    pub enabled: bool,
    pub schedule: ReminderSchedule,
    pub snooze_minutes: u8,
}

impl Clone for Reminder {
    fn clone(&self) -> (r: Self)
        ensures
            r == *self,
    {
        Reminder {
            id: self.id.clone(),
            title: self.title.clone(),
            message: self.message.clone(),
            enabled: self.enabled,
            schedule: self.schedule.clone(),
            snooze_minutes: self.snooze_minutes,
        }
    }
}

pub enum ScheduleView {
    Interval { minutes: u32 },
    Daily { at: Seq<char> },
}

/// A reminder as the contracts see it: its texts as character sequences.
pub struct ReminderView {
    pub id: Seq<char>,
    pub title: Seq<char>,
    pub message: Seq<char>,
    pub enabled: bool,
    pub schedule: ScheduleView,
    pub snooze_minutes: u8,
}

impl View for ReminderSchedule {
    type V = ScheduleView;

    open spec fn view(&self) -> ScheduleView {
        match self {
            ReminderSchedule::Interval { minutes } => ScheduleView::Interval { minutes: *minutes },
            ReminderSchedule::Daily { at } => ScheduleView::Daily { at: at@ },
        }
    }
}

impl View for Reminder {
    type V = ReminderView;

    open spec fn view(&self) -> ReminderView {
        ReminderView {
            id: self.id@,
            title: self.title@,
            message: self.message@,
            enabled: self.enabled,
            schedule: self.schedule@,
            snooze_minutes: self.snooze_minutes,
        }
    }
}

pub open spec fn reminder_views(v: Seq<Reminder>) -> Seq<ReminderView> {
    v.map_values(|r: Reminder| r@)
}

/// A daily time `HH:MM`: split at the first `:`, each side two characters
/// that parse as a `u8`, the hour below 24 and the minute below 60. (A side
/// that parses is ASCII, so two characters are two bytes.)
pub open spec fn is_valid_daily_time(s: Seq<char>) -> bool {
    match split_once(s, ':') {
        None => false,
        Some((h, m)) => {
            &&& h.len() == 2
            &&& m.len() == 2
            &&& parse_unsigned(h, 255) matches Some(hv) && hv < 24
            &&& parse_unsigned(m, 255) matches Some(mv) && mv < 60
        },
    }
}

/// Whether a daily reminder time is well formed.
pub fn valid_daily_time(value: &str) -> (r: bool)
    ensures
        r == is_valid_daily_time(value@),
{
    let Some((hour, minute)) = split_once_exec(value, ':') else {
        return false;
    };
    if hour.as_str().unicode_len() != 2 || minute.as_str().unicode_len() != 2 {
        return false;
    }
    let h = parse_unsigned_exec(hour.as_str(), 255);
    let m = parse_unsigned_exec(minute.as_str(), 255);
    match (h, m) {
        (Some(hv), Some(mv)) => hv < 24 && mv < 60,
        _ => false,
    }
}

/// The rule a stored reminder must meet to be kept: a non-blank id and
/// title, and an interval of 1 to 1440 minutes or a valid daily time.
pub open spec fn reminder_is_kept(r: ReminderView) -> bool {
    &&& !is_blank(r.id)
    &&& !is_blank(r.title)
    &&& match r.schedule {
        ScheduleView::Interval { minutes } => 1 <= minutes <= 1440,
        ScheduleView::Daily { at } => is_valid_daily_time(at),
    }
}

pub open spec fn with_default_snooze(r: ReminderView) -> ReminderView {
    ReminderView { snooze_minutes: 5, ..r }
}

/// The kept reminders, in order, each with a five-minute snooze.
pub open spec fn kept_reminders(s: Seq<ReminderView>) -> Seq<ReminderView>
    decreases s.len(),
{
    if s.len() == 0 {
        seq![]
    } else {
        let rest = kept_reminders(s.drop_last());
        if reminder_is_kept(s.last()) {
            rest.push(with_default_snooze(s.last()))
        } else {
            rest
        }
    }
}

pub open spec fn interval_reminder(
    id: Seq<char>,
    title: Seq<char>,
    message: Seq<char>,
    minutes: u32,
) -> ReminderView {
    ReminderView {
        id,
        title,
        message,
        enabled: true,
        schedule: ScheduleView::Interval { minutes },
        snooze_minutes: 5,
    }
}

/// The built-in reminders: rest the eyes, drink water, stretch.
pub open spec fn default_reminder_views() -> Seq<ReminderView> {
    seq![
        interval_reminder("eye-rest"@, "看看远处"@, "让眼睛休息 20 秒"@, 20),
        interval_reminder("water"@, "喝口水吧"@, "补充一点水分"@, 45),
        interval_reminder("stretch"@, "起来走走吧"@, "活动一下肩颈和双腿"@, 60),
    ]
}

/// What sanitizing does to a reminder list: keep the valid ones with a
/// five-minute snooze, or fall back to the built-in list when none is left.
pub open spec fn sanitized_reminders(s: Seq<ReminderView>) -> Seq<ReminderView> {
    let kept = kept_reminders(s);
    if kept.len() == 0 {
        default_reminder_views()
    } else {
        kept
    }
}

fn interval_reminder_exec(id: &str, title: &str, message: &str, minutes: u32) -> (r: Reminder)
    ensures
        r@ == interval_reminder(id@, title@, message@, minutes),
{
    Reminder {
        id: String::from_str(id),
        title: String::from_str(title),
        message: String::from_str(message),
        enabled: true,
        schedule: ReminderSchedule::Interval { minutes },
        snooze_minutes: 5,
    }
}

/// The built-in reminder list.
pub fn default_reminders() -> (r: Vec<Reminder>)
    ensures
        reminder_views(r@) == default_reminder_views(),
{
    let mut v: Vec<Reminder> = Vec::new();
    v.push(interval_reminder_exec("eye-rest", "看看远处", "让眼睛休息 20 秒", 20));
    v.push(interval_reminder_exec("water", "喝口水吧", "补充一点水分", 45));
    v.push(interval_reminder_exec("stretch", "起来走走吧", "活动一下肩颈和双腿", 60));
    assert(reminder_views(v@) =~= default_reminder_views());
    v
}

fn reminder_kept(r: &Reminder) -> (b: bool)
    ensures
        b == reminder_is_kept(r@),
{
    if blank(r.id.as_str()) || blank(r.title.as_str()) {
        return false;
    }
    match &r.schedule {
        ReminderSchedule::Interval { minutes } => 1 <= *minutes && *minutes <= 1440,
        ReminderSchedule::Daily { at } => valid_daily_time(at.as_str()),
    }
}

/// Drops invalid reminders, resets every snooze to five minutes, and
/// restores the built-in list when nothing valid remains.
pub fn sanitize_reminders(reminders: Vec<Reminder>) -> (r: Vec<Reminder>)
    ensures
        reminder_views(r@) == sanitized_reminders(reminder_views(reminders@)),
{
    let ghost input = reminder_views(reminders@);
    let mut kept: Vec<Reminder> = Vec::new();
    let n = reminders.len();
    let mut i: usize = 0;
    while i < n
        invariant
            n == reminders@.len(),
            i <= n,
            input == reminder_views(reminders@),
            reminder_views(kept@) == kept_reminders(input.take(i as int)),
        decreases n - i,
    {
        proof {
            assert(input.take(i + 1).drop_last() =~= input.take(i as int));
            assert(input.take(i + 1).last() == reminders@[i as int]@);
        }
        if reminder_kept(&reminders[i]) {
            let mut item = reminders[i].clone();
            item.snooze_minutes = 5;
            kept.push(item);
            assert(reminder_views(kept@) =~= kept_reminders(input.take(i + 1)));
        } else {
            assert(reminder_views(kept@) =~= kept_reminders(input.take(i + 1)));
        }
        i = i + 1;
    }
    assert(input.take(n as int) =~= input);
    if kept.len() == 0 {
        default_reminders()
    } else {
        kept
    }
}

/// Where the settings file lives.
pub struct SettingsStore {
    path: std::path::PathBuf,
}

impl SettingsStore {
    pub closed spec fn stored_path(&self) -> std::path::PathBuf {
        self.path
    }

    pub fn new(path: std::path::PathBuf) -> (r: Self)
        ensures
            r.stored_path() == path,
    {
        SettingsStore { path }
    }

    pub fn path(&self) -> (r: &std::path::PathBuf)
        ensures
            *r == self.stored_path(),
    {
        &self.path
    }
}

} // verus!
