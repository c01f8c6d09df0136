use deskmate::reminders::{
    compose_bubble, daily_next_due, next_due, BubbleAction, ReminderRuntime,
};
use deskmate::settings::{
    default_reminders, sanitize_reminders, valid_daily_time, Reminder, ReminderSchedule,
};

fn interval(id: &str, minutes: u32) -> Reminder {
    Reminder {
        id: id.into(),
        title: format!("{id} title"),
        message: format!("{id} message"),
        enabled: true,
        schedule: ReminderSchedule::Interval { minutes },
        snooze_minutes: 5,
    }
}

#[test]
fn interval_reminder_uses_last_delivery_not_missed_history() {
    let reminder = Reminder {
        id: "water".into(),
        title: "water".into(),
        message: "drink".into(),
        enabled: true,
        schedule: ReminderSchedule::Interval { minutes: 45 },
        snooze_minutes: 5,
    };
    assert_eq!(next_due(&reminder, 1_000, 9_999), Some(2_701_000));
}

#[test]
fn daily_reminder_with_a_malformed_time_is_never_due() {
    let mut reminder = interval("tea", 1);
    reminder.schedule = ReminderSchedule::Daily { at: "25:00".into() };
    assert_eq!(next_due(&reminder, 0, 1_700_000_000_000), None);
    reminder.schedule = ReminderSchedule::Daily { at: "noon".into() };
    assert_eq!(next_due(&reminder, 0, 1_700_000_000_000), None);
    reminder.schedule = ReminderSchedule::Daily { at: "12:60".into() };
    assert_eq!(next_due(&reminder, 0, 1_700_000_000_000), None);
}

#[test]
fn daily_reminder_is_due_within_a_day_of_now() {
    let mut reminder = interval("tea", 1);
    reminder.schedule = ReminderSchedule::Daily { at: "09:30".into() };
    let now = 1_700_000_000_000_i64;
    let today = next_due(&reminder, 0, now).unwrap();
    assert!(today > now - 86_400_000 * 2 && today < now + 86_400_000 * 2);
    assert_eq!(next_due(&reminder, today, now), Some(today + 86_400_000));
}

#[test]
fn daily_due_moves_to_tomorrow_once_shown() {
    assert_eq!(daily_next_due(100, 200), 200);
    assert_eq!(daily_next_due(200, 200), 200 + 86_400_000);
    assert_eq!(daily_next_due(300, 200), 200 + 86_400_000);
}

#[test]
fn one_due_reminder_shows_its_own_bubble() {
    let bubble = compose_bubble(&vec![interval("water", 45)]);
    assert_eq!(bubble.reminder_ids, vec!["water"]);
    assert_eq!(bubble.title, "water title");
    assert_eq!(bubble.message, "water message");
}

#[test]
fn several_due_reminders_share_one_bubble() {
    let bubble = compose_bubble(&vec![interval("water", 45), interval("stretch", 60)]);
    assert_eq!(bubble.reminder_ids, vec!["water", "stretch"]);
    assert_eq!(bubble.title, "休息一下");
    assert_eq!(bubble.message, "water message · stretch message");
}

#[test]
fn a_new_reminder_waits_a_full_interval() {
    let reminders = vec![interval("water", 45)];
    let mut runtime = ReminderRuntime::new();
    let start = 1_000_000_i64;
    assert!(runtime.poll(&reminders, start, 0, false).is_none());
    // Not yet: 40 minutes later the reminder is more than five minutes off.
    assert!(runtime.poll(&reminders, start + 39 * 60_000, 15_000, false).is_none());
    // 41 minutes later it comes due within the five-minute window.
    let bubble = runtime
        .poll(&reminders, start + 41 * 60_000, 30_000, false)
        .unwrap();
    assert_eq!(bubble.reminder_ids, vec!["water"]);
    // Shown now, so it is not due again right away.
    assert!(runtime.poll(&reminders, start + 42 * 60_000, 45_000, false).is_none());
}

#[test]
fn nothing_is_shown_while_held_or_after_a_sleep() {
    let reminders = vec![interval("water", 1)];
    let mut runtime2 = ReminderRuntime::new();
    runtime2.initialize(&reminders, 0, 0);
    // Held back (paused, fullscreen, dragged or in use).
    assert!(runtime2.poll(&reminders, 60_000, 15_000, true).is_none());
    // The clock jumped by more than two minutes: the machine slept.
    assert!(runtime2.poll(&reminders, 10 * 60_000, 500_000, false).is_none());
    // The sleep counted every reminder as shown at that moment.
    assert!(runtime2.poll(&reminders, 10 * 60_000 + 1, 515_000, false).is_some());
}

#[test]
fn snoozed_reminders_stay_quiet_for_five_minutes() {
    let reminders = vec![interval("water", 1)];
    let mut runtime = ReminderRuntime::new();
    runtime.initialize(&reminders, 0, 0);
    let action = BubbleAction { action: "snooze".into(), reminder_ids: vec!["water".into()] };
    runtime.handle_action(&action, 0);
    assert!(runtime.due_within(&reminders, 300_000, 299_999).is_empty());
    let due = runtime.due_within(&reminders, 300_000, 300_000);
    assert_eq!(due.len(), 1);
    assert_eq!(due[0].id, "water");
}

#[test]
fn finishing_a_bubble_lifts_the_snooze() {
    let reminders = vec![interval("water", 1)];
    let mut runtime = ReminderRuntime::new();
    runtime.initialize(&reminders, 0, 0);
    runtime.handle_action(
        &BubbleAction { action: "snooze".into(), reminder_ids: vec!["water".into()] },
        0,
    );
    runtime.handle_action(
        &BubbleAction { action: "done".into(), reminder_ids: vec!["water".into()] },
        10_000,
    );
    assert_eq!(runtime.due_within(&reminders, 300_000, 10_000).len(), 1);
}

#[test]
fn disabled_reminders_are_never_due() {
    let mut reminder = interval("water", 1);
    reminder.enabled = false;
    let reminders = vec![reminder];
    let mut runtime = ReminderRuntime::new();
    runtime.initialize(&reminders, 0, 0);
    assert!(runtime.due_within(&reminders, 300_000, 1_000_000).is_empty());
}

#[test]
fn marking_records_the_time_shown() {
    let reminders = vec![interval("water", 10)];
    let mut runtime = ReminderRuntime::new();
    runtime.initialize(&reminders, 0, 0);
    runtime.mark_triggered(&vec!["water".to_string()], 1_000_000);
    assert!(runtime.due_within(&reminders, 0, 1_000_000 + 599_999).is_empty());
    assert_eq!(runtime.due_within(&reminders, 0, 1_000_000 + 600_000).len(), 1);
}

#[test]
fn sleep_is_detected_from_the_tick_gap() {
    let reminders = vec![interval("water", 10)];
    let mut runtime = ReminderRuntime::new();
    runtime.initialize(&reminders, 0, 1_000);
    assert!(!runtime.reset_after_sleep(&reminders, 0, 121_000));
    assert!(runtime.reset_after_sleep(&reminders, 500_000, 241_001));
    // Everything counts as shown at the resume time.
    assert!(runtime.due_within(&reminders, 0, 500_000 + 599_999).is_empty());
}

#[test]
fn sanitizing_keeps_valid_reminders_with_a_five_minute_snooze() {
    let mut long = interval("long", 1441);
    long.snooze_minutes = 9;
    let mut blank_id = interval(" ", 10);
    blank_id.id = "  ".into();
    let mut daily = interval("daily", 1);
    daily.schedule = ReminderSchedule::Daily { at: "07:05".into() };
    daily.snooze_minutes = 30;
    let mut bad_daily = interval("bad", 1);
    bad_daily.schedule = ReminderSchedule::Daily { at: "7:05".into() };
    let kept = sanitize_reminders(vec![long, blank_id, daily, bad_daily, interval("ok", 1440)]);
    let ids: Vec<&str> = kept.iter().map(|r| r.id.as_str()).collect();
    assert_eq!(ids, vec!["daily", "ok"]);
    assert!(kept.iter().all(|r| r.snooze_minutes == 5));
}

#[test]
fn sanitizing_an_empty_list_restores_the_built_in_reminders() {
    let restored = sanitize_reminders(vec![interval("zero", 0)]);
    let ids: Vec<&str> = restored.iter().map(|r| r.id.as_str()).collect();
    assert_eq!(ids, vec!["eye-rest", "water", "stretch"]);
    assert_eq!(default_reminders().len(), 3);
    assert_eq!(default_reminders()[1].title, "喝口水吧");
}

#[test]
fn sanitizing_twice_changes_nothing_more() {
    let once = sanitize_reminders(vec![interval("a", 3), interval("b", 0)]);
    let twice = sanitize_reminders(once.clone());
    let a: Vec<&str> = once.iter().map(|r| r.id.as_str()).collect();
    let b: Vec<&str> = twice.iter().map(|r| r.id.as_str()).collect();
    assert_eq!(a, b);
}

#[test]
fn daily_times_are_two_digit_hours_and_minutes() {
    assert!(valid_daily_time("00:00"));
    assert!(valid_daily_time("23:59"));
    assert!(!valid_daily_time("24:00"));
    assert!(!valid_daily_time("9:00"));
    assert!(!valid_daily_time("09:60"));
    assert!(!valid_daily_time("0900"));
    // A sign counts as a digit position, as `str::parse` accepts it.
    assert!(valid_daily_time("+9:00"));
}

#[test]
fn daily_reminders_fall_on_the_scheduled_wall_clock_time() {
    let mut reminder = interval("tea", 1);
    reminder.schedule = ReminderSchedule::Daily { at: "00:00".into() };
    let now = 1_700_000_000_000_i64;
    let midnight = next_due(&reminder, 0, now).unwrap();
    reminder.schedule = ReminderSchedule::Daily { at: "06:30".into() };
    let morning = next_due(&reminder, 0, now).unwrap();
    // Unless a clock change falls in between, 06:30 is six and a half hours after midnight.
    let gap = morning - midnight;
    assert!(gap >= 5 * 3_600_000 && gap <= 8 * 3_600_000);
}
