//! Reminder scheduling: when each reminder is next due, which reminders are
//! due now, snoozing, and the bubble shown for them.

use vstd::prelude::*;
use crate::calendar::{
    earliest_datetime_millis, latest_datetime_millis, local_offset_seconds, local_wall_to_utc_millis,
    offset_in_range,
};
use crate::settings::{reminder_views, Reminder, ReminderSchedule, ReminderView, ScheduleView};
use crate::text::{parse_unsigned, parse_unsigned_exec, split_once, split_once_exec, same_text};
use crate::timetable::TimeTable;

verus! {

pub open spec fn minute_millis() -> int {
    60_000
}

pub open spec fn day_millis() -> int {
    86_400_000
}

/// The snooze a bubble's "snooze" action applies: five minutes.
pub open spec fn snooze_millis() -> int {
    300_000
}

/// How long the reminder clock may stop before the machine counts as having
/// slept: two minutes.
pub open spec fn sleep_gap_millis() -> int {
    120_000
}

/// A daily reminder is due at today's scheduled time if it was last shown
/// before that time, and otherwise at the same time tomorrow.
pub open spec fn daily_due_after(previous: int, scheduled: int) -> int {
    if previous < scheduled {
        scheduled
    } else {
        scheduled + day_millis()
    }
}

pub fn daily_next_due(previous: i64, scheduled: i64) -> (r: i64)
    requires
        scheduled + day_millis() <= i64::MAX,
    ensures
        r == daily_due_after(previous as int, scheduled as int),
{
    if previous < scheduled {
        scheduled
    } else {
        scheduled + 86_400_000
    }
}

/// The hour and minute that a daily reminder's `at` text names, each read as
/// a `u32`, or `None` when it has no `:` or a side does not parse.
pub open spec fn daily_clock(at: Seq<char>) -> Option<(nat, nat)> {
    match split_once(at, ':') {
        None => None,
        Some((h, m)) => match (parse_unsigned(h, u32::MAX as nat), parse_unsigned(m, u32::MAX as nat)) {
            (Some(hv), Some(mv)) => Some((hv, mv)),
            _ => None,
        },
    }
}

/// The local day (counted from the epoch) that a wall-clock time falls in.
pub open spec fn local_day(wall: int) -> int {
    wall / day_millis()
}

/// The wall-clock time of `hour:minute` on a local day.
pub open spec fn wall_time_on(day: int, hour: int, minute: int) -> int {
    day * day_millis() + hour * 3_600_000 + minute * minute_millis()
}

/// Today's `hour:minute` in wall-clock time, for the instant `now` and a
/// local offset (seconds ahead of UTC) at that instant.
pub open spec fn scheduled_wall(now: int, offset: int, hour: int, minute: int) -> int {
    wall_time_on(local_day(now + offset * 1000), hour, minute)
}

/// Whether `due` is a possible answer of `next_due` for this reminder. An
/// interval reminder is due `minutes` after it was last shown. A daily
/// reminder with a malformed or out-of-range time is never due. Otherwise
/// its due time comes from the local clock: today's date is that of `now`
/// shifted by the local offset, the scheduled time is that date at
/// `hour:minute`, and the instant of it is that wall-clock time shifted
/// back by the offset then in force. Both offsets depend on the machine's
/// time zone and are less than a day; the answer is either none (the clock
/// could not place the time) or `daily_due_after` of that instant.
pub open spec fn next_due_outcome(r: ReminderView, previous: i64, now: i64, due: Option<i64>) -> bool {
    match r.schedule {
        ScheduleView::Interval { minutes } => due == Some(
            (previous + minutes * minute_millis()) as i64,
        ),
        ScheduleView::Daily { at } => match daily_clock(at) {
            None => due is None,
            Some((h, m)) => if h >= 24 || m >= 60 {
                due is None
            } else {
                due is None || exists|offset: int, t: int|
                    #![trigger scheduled_wall(now as int, offset, h as int, m as int), daily_due_after(previous as int, t)]
                    offset_in_range(offset) && scheduled_wall(now as int, offset, h as int, m as int)
                        - day_millis() < t < scheduled_wall(now as int, offset, h as int, m as int)
                        + day_millis() && due == Some(daily_due_after(previous as int, t) as i64)
            },
        },
    }
}

/// An interval reminder's due time must fit in an `i64`.
pub open spec fn due_time_fits(r: ReminderView, previous: i64) -> bool {
    match r.schedule {
        ScheduleView::Interval { minutes } => previous + minutes * minute_millis() <= i64::MAX,
        ScheduleView::Daily { .. } => true,
    }
}

fn local_day_of(wall: i64) -> (r: i64)
    requires
        earliest_datetime_millis() - day_millis() <= wall <= latest_datetime_millis() + day_millis(),
    ensures
        r == local_day(wall as int),
        wall - day_millis() < r * day_millis() <= wall,
{
    let shifted: u64 = (wall + 8_640_000_000_000_000) as u64;
    let day_shifted: u64 = shifted / 86_400_000;
    let r: i64 = day_shifted as i64 - 100_000_000;
    proof {
        let x = shifted as int;
        assert(x == wall + 8_640_000_000_000_000);
        assert(day_shifted as int == x / 86_400_000);
        vstd::arithmetic::div_mod::lemma_fundamental_div_mod(x, 86_400_000);
        let rem = x % 86_400_000;
        assert(0 <= rem < 86_400_000);
        assert(x == 86_400_000 * (day_shifted as int) + rem);
        assert(day_shifted as int <= x);
        assert(r as int == day_shifted as int - 100_000_000);
        let q = day_shifted as int;
        let w = wall as int;
        let d = r as int;
        assert(w == d * 86_400_000 + rem) by (nonlinear_arith)
            requires
                x == 86_400_000 * q + rem,
                d == q - 100_000_000,
                x == w + 8_640_000_000_000_000,
        ;
        vstd::arithmetic::div_mod::lemma_fundamental_div_mod_converse(
            wall as int,
            86_400_000,
            r as int,
            rem,
        );
    }
    r
}

/// When a reminder is next due, given when it was last shown and the
/// current time.
pub fn next_due(reminder: &Reminder, previous: i64, now: i64) -> (r: Option<i64>)
    requires
        due_time_fits(reminder@, previous),
    ensures
        next_due_outcome(reminder@, previous, now, r),
{
    match &reminder.schedule {
        ReminderSchedule::Interval { minutes } => Some(previous + (*minutes as i64) * 60_000),
        ReminderSchedule::Daily { at } => {
            let (hour, minute) = split_once_exec(at.as_str(), ':')?;
            let h = parse_unsigned_exec(hour.as_str(), 4294967295)?;
            let m = parse_unsigned_exec(minute.as_str(), 4294967295)?;
            if h >= 24 || m >= 60 {
                return None;
            }
            let offset = local_offset_seconds(now)?;
            let wall = now + offset as i64 * 1000;
            let day = local_day_of(wall);
            let scheduled = day * 86_400_000 + h as i64 * 3_600_000 + m as i64 * 60_000;
            assert(scheduled == scheduled_wall(now as int, offset as int, h as int, m as int));
            let timestamp = local_wall_to_utc_millis(scheduled)?;
            let due = daily_next_due(previous, timestamp);
            proof {
                let hn: nat = h as nat;
                let mn: nat = m as nat;
                assert(daily_clock(at@) == Some((hn, mn)));
                let o = offset as int;
                let t = timestamp as int;
                assert(scheduled_wall(now as int, o, hn as int, mn as int) == scheduled);
                assert(offset_in_range(o) && scheduled_wall(now as int, o, hn as int, mn as int)
                    - day_millis() < t < scheduled_wall(now as int, o, hn as int, mn as int)
                    + day_millis() && Some(due) == Some(daily_due_after(previous as int, t) as i64));
                assert(next_due_outcome(reminder@, previous, now, Some(due)));
            }
            Some(due)
        },
    }
}

/// The message bubble shown for the reminders that came due together.
#[derive(Debug)]
pub struct BubblePayload {
    pub reminder_ids: Vec<String>,
    pub title: String,
    pub message: String,
}

/// What the user did with a bubble: `"snooze"` or anything else (done).
#[derive(Debug)]
pub struct BubbleAction {
    pub action: String,
    pub reminder_ids: Vec<String>,
}

pub open spec fn join_texts(parts: Seq<Seq<char>>, sep: Seq<char>) -> Seq<char>
    decreases parts.len(),
{
    if parts.len() == 0 {
        seq![]
    } else if parts.len() == 1 {
        parts[0]
    } else {
        join_texts(parts.drop_last(), sep) + sep + parts.last()
    }
}

pub open spec fn ids_of(rs: Seq<ReminderView>) -> Seq<Seq<char>> {
    rs.map_values(|r: ReminderView| r.id)
}

pub open spec fn messages_of(rs: Seq<ReminderView>) -> Seq<Seq<char>> {
    rs.map_values(|r: ReminderView| r.message)
}

/// One due reminder shows its own title and message; several show a common
/// title and their messages joined by " · ".
pub open spec fn bubble_title(due: Seq<ReminderView>) -> Seq<char> {
    if due.len() == 1 {
        due[0].title
    } else {
        "休息一下"@
    }
}

pub open spec fn bubble_message(due: Seq<ReminderView>) -> Seq<char> {
    if due.len() == 1 {
        due[0].message
    } else {
        join_texts(messages_of(due), " · "@)
    }
}

pub open spec fn texts_view(v: Seq<String>) -> Seq<Seq<char>> {
    v.map_values(|s: String| s@)
}

/// Builds the bubble for a non-empty list of due reminders.
pub fn compose_bubble(due: &Vec<Reminder>) -> (r: BubblePayload)
    requires
        due@.len() >= 1,
    ensures
        texts_view(r.reminder_ids@) == ids_of(reminder_views(due@)),
        r.title@ == bubble_title(reminder_views(due@)),
        r.message@ == bubble_message(reminder_views(due@)),
{
    let ghost rs = reminder_views(due@);
    let mut ids: Vec<String> = Vec::new();
    let mut message = String::new();
    let n = due.len();
    let mut i: usize = 0;
    while i < n
        invariant
            n == due@.len(),
            n >= 1,
            i <= n,
            rs == reminder_views(due@),
            texts_view(ids@) == ids_of(rs.take(i as int)),
            i >= 1 ==> message@ == join_texts(messages_of(rs.take(i as int)), " · "@),
            i == 0 ==> message@ == Seq::<char>::empty(),
        decreases n - i,
    {
        let ghost old_ids = ids@;
        ids.push(due[i].id.clone());
        proof {
            assert(rs.take(i + 1) =~= rs.take(i as int).push(rs[i as int]));
            assert(messages_of(rs.take(i + 1)).drop_last() =~= messages_of(rs.take(i as int)));
            assert(ids@ =~= old_ids.push(due@[i as int].id));
            assert(texts_view(ids@) =~= texts_view(old_ids).push(rs[i as int].id));
            assert(texts_view(ids@) =~= ids_of(rs.take(i + 1)));
        }
        if i > 0 {
            message.append(" · ");
        }
        message.append(due[i].message.as_str());
        assert(message@ =~= join_texts(messages_of(rs.take(i + 1)), " · "@));
        i = i + 1;
    }
    assert(rs.take(n as int) =~= rs);
    if n == 1 {
        BubblePayload {
            reminder_ids: ids,
            title: due[0].title.clone(),
            message: due[0].message.clone(),
        }
    } else {
        BubblePayload { reminder_ids: ids, title: String::from_str("休息一下"), message }
    }
}

// ---------------------------------------------------------------------------
// Map updates over a list of ids or reminders, one entry at a time.

/// Gives each reminder the time `now` unless it already has one.
pub open spec fn fill_missing(
    m: Map<Seq<char>, i64>,
    rs: Seq<ReminderView>,
    now: i64,
) -> Map<Seq<char>, i64>
    decreases rs.len(),
{
    if rs.len() == 0 {
        m
    } else {
        let m2 = fill_missing(m, rs.drop_last(), now);
        if m2.contains_key(rs.last().id) {
            m2
        } else {
            m2.insert(rs.last().id, now)
        }
    }
}

/// Sets each of the ids to `at`.
pub open spec fn set_all(m: Map<Seq<char>, i64>, ids: Seq<Seq<char>>, at: i64) -> Map<
    Seq<char>,
    i64,
>
    decreases ids.len(),
{
    if ids.len() == 0 {
        m
    } else {
        set_all(m, ids.drop_last(), at).insert(ids.last(), at)
    }
}

/// Removes each of the ids.
pub open spec fn remove_all(m: Map<Seq<char>, i64>, ids: Seq<Seq<char>>) -> Map<Seq<char>, i64>
    decreases ids.len(),
{
    if ids.len() == 0 {
        m
    } else {
        remove_all(m, ids.drop_last()).remove(ids.last())
    }
}

// ---------------------------------------------------------------------------
// The runtime state.

/// When each reminder was last shown, how long each is snoozed, and the
/// reminder clock's last tick (monotonic milliseconds).
pub struct ReminderRuntime {
    last_triggered: TimeTable,
    snoozed_until: TimeTable,
    last_tick: Option<u64>,
}

/// The time a reminder counts as last shown: its recorded time, or now.
pub open spec fn previous_time(last: Map<Seq<char>, i64>, id: Seq<char>, now: i64) -> i64 {
    if last.contains_key(id) {
        last[id]
    } else {
        now
    }
}

pub open spec fn is_snoozed(snoozed: Map<Seq<char>, i64>, id: Seq<char>, now: i64) -> bool {
    snoozed.contains_key(id) && snoozed[id] > now
}

/// A reminder takes part in a due check when it is enabled and not snoozed.
pub open spec fn is_eligible(r: ReminderView, snoozed: Map<Seq<char>, i64>, now: i64) -> bool {
    r.enabled && !is_snoozed(snoozed, r.id, now)
}

/// The eligible reminders whose due time (taken from `dues`) is at most
/// `horizon`, in the order given.
pub open spec fn select_due(
    rs: Seq<ReminderView>,
    dues: Seq<Option<i64>>,
    snoozed: Map<Seq<char>, i64>,
    now: i64,
    horizon: int,
) -> Seq<ReminderView>
    decreases rs.len(),
{
    if rs.len() == 0 {
        seq![]
    } else {
        let rest = select_due(rs.drop_last(), dues.drop_last(), snoozed, now, horizon);
        let i = rs.len() - 1;
        if is_eligible(rs[i], snoozed, now) && (dues[i] matches Some(d) && d <= horizon) {
            rest.push(rs[i])
        } else {
            rest
        }
    }
}

/// `dues` holds, for every eligible reminder, a possible answer of
/// `next_due`.
pub open spec fn dues_possible(
    rs: Seq<ReminderView>,
    dues: Seq<Option<i64>>,
    last: Map<Seq<char>, i64>,
    snoozed: Map<Seq<char>, i64>,
    now: i64,
) -> bool {
    &&& dues.len() == rs.len()
    &&& forall|i: int|
        0 <= i < rs.len() && is_eligible(rs[i], snoozed, now) ==> next_due_outcome(
            rs[i],
            previous_time(last, rs[i].id, now),
            now,
            #[trigger] dues[i],
        )
}


/// The latest clock reading (epoch milliseconds) the reminder loop works
/// with: far enough below `i64::MAX` that every interval reminder's due time
/// and the due-check horizon fit in an `i64`.
pub const LATEST_REMINDER_TIME: i64 = 9_223_114_338_816_775_807;

/// How far ahead the reminder loop looks for due reminders: five minutes.
pub open spec fn due_window_millis() -> int {
    300_000
}

/// Every recorded time is at most `bound`.
pub open spec fn times_at_most(m: Map<Seq<char>, i64>, bound: i64) -> bool {
    forall|k: Seq<char>| #[trigger] m.contains_key(k) ==> m[k] <= bound
}

/// Whether the clock moved on by more than the sleep gap since `previous`.
pub open spec fn clock_resumed(previous: Option<u64>, tick: u64) -> bool {
    previous matches Some(p) && tick - p > sleep_gap_millis()
}

/// The last-shown times once a loop round has started: missing reminders
/// filled in with `now`, and after a sleep every reminder set to `now`.
pub open spec fn started_times(
    last: Map<Seq<char>, i64>,
    previous_tick: Option<u64>,
    rs: Seq<ReminderView>,
    now: i64,
    tick: u64,
) -> Map<Seq<char>, i64> {
    let filled = fill_missing(last, rs, now);
    if clock_resumed(previous_tick, tick) {
        set_all(filled, ids_of(rs), now)
    } else {
        filled
    }
}

/// The bubble shows exactly these due reminders.
pub open spec fn bubble_for(p: BubblePayload, due: Seq<ReminderView>) -> bool {
    &&& texts_view(p.reminder_ids@) == ids_of(due)
    &&& p.title@ == bubble_title(due)
    &&& p.message@ == bubble_message(due)
}

/// What a loop round that got as far as the due check gives: nothing when no
/// reminder is due; otherwise a bubble for the due reminders, which count as
/// shown at `now`.
pub open spec fn round_result(
    due: Seq<ReminderView>,
    before: Map<Seq<char>, i64>,
    now: i64,
    r: Option<BubblePayload>,
    after: Map<Seq<char>, i64>,
) -> bool {
    if due.len() == 0 {
        r is None && after == before
    } else {
        r matches Some(p) && bubble_for(p, due) && after == set_all(before, ids_of(due), now)
    }
}

proof fn lemma_fill_missing_at_most(
    m: Map<Seq<char>, i64>,
    rs: Seq<ReminderView>,
    now: i64,
    bound: i64,
)
    requires
        times_at_most(m, bound),
        now <= bound,
    ensures
        times_at_most(fill_missing(m, rs, now), bound),
    decreases rs.len(),
{
    if rs.len() > 0 {
        lemma_fill_missing_at_most(m, rs.drop_last(), now, bound);
    }
}

proof fn lemma_set_all_at_most(m: Map<Seq<char>, i64>, ids: Seq<Seq<char>>, at: i64, bound: i64)
    requires
        times_at_most(m, bound),
        at <= bound,
    ensures
        times_at_most(set_all(m, ids, at), bound),
    decreases ids.len(),
{
    if ids.len() > 0 {
        lemma_set_all_at_most(m, ids.drop_last(), at, bound);
    }
}

impl ReminderRuntime {
    pub closed spec fn last_shown(&self) -> Map<Seq<char>, i64> {
        self.last_triggered@
    }

    pub closed spec fn snoozed(&self) -> Map<Seq<char>, i64> {
        self.snoozed_until@
    }

    pub closed spec fn tick(&self) -> Option<u64> {
        self.last_tick
    }

    /// Every eligible interval reminder's due time fits in an `i64`.
    pub open spec fn due_times_fit(&self, rs: Seq<ReminderView>, now: i64) -> bool {
        forall|i: int|
            0 <= i < rs.len() && is_eligible(rs[i], self.snoozed(), now) ==> due_time_fits(
                #[trigger] rs[i],
                previous_time(self.last_shown(), rs[i].id, now),
            )
    }

    pub fn new() -> (r: Self)
        ensures
            r.last_shown() == Map::<Seq<char>, i64>::empty(),
            r.snoozed() == Map::<Seq<char>, i64>::empty(),
            r.tick() is None,
    {
        ReminderRuntime {
            last_triggered: TimeTable::new(),
            snoozed_until: TimeTable::new(),
            last_tick: None,
        }
    }

    /// Gives every reminder that has no last-shown time the time `now`, and
    /// starts the reminder clock at `tick` if it has not started.
    pub fn initialize(&mut self, reminders: &Vec<Reminder>, now: i64, tick: u64)
        ensures
            final(self).last_shown() == fill_missing(
                old(self).last_shown(),
                reminder_views(reminders@),
                now,
            ),
            final(self).snoozed() == old(self).snoozed(),
            final(self).tick() == (if old(self).tick() is None {
                Some(tick)
            } else {
                old(self).tick()
            }),
    {
        let ghost rs = reminder_views(reminders@);
        let ghost start = self.last_shown();
        let n = reminders.len();
        let mut i: usize = 0;
        while i < n
            invariant
                n == reminders@.len(),
                i <= n,
                rs == reminder_views(reminders@),
                self.last_shown() == fill_missing(start, rs.take(i as int), now),
                self.snoozed() == old(self).snoozed(),
                self.tick() == old(self).tick(),
            decreases n - i,
        {
            proof {
                assert(rs.take(i + 1).drop_last() =~= rs.take(i as int));
                assert(rs.take(i + 1).last() == rs[i as int]);
            }
            let id = reminders[i].id.as_str();
            if self.last_triggered.get(id).is_none() {
                self.last_triggered.set(id, now);
            }
            i = i + 1;
        }
        assert(rs.take(n as int) =~= rs);
        if self.last_tick.is_none() {
            self.last_tick = Some(tick);
        }
    }

    /// Moves the reminder clock to `tick`. When more than two minutes passed
    /// since the last tick (the machine slept), every reminder counts as
    /// shown at `now`, and the answer is `true`.
    pub fn reset_after_sleep(&mut self, reminders: &Vec<Reminder>, now: i64, tick: u64) -> (resumed:
        bool)
        ensures
            resumed == (old(self).tick() matches Some(previous) && tick - previous
                > sleep_gap_millis()),
            final(self).tick() == Some(tick),
            final(self).snoozed() == old(self).snoozed(),
            final(self).last_shown() == (if resumed {
                set_all(old(self).last_shown(), ids_of(reminder_views(reminders@)), now)
            } else {
                old(self).last_shown()
            }),
    {
        let resumed = match self.last_tick {
            Some(previous) => tick > previous && tick - previous > 120_000,
            None => false,
        };
        self.last_tick = Some(tick);
        if resumed {
            let ghost ids = ids_of(reminder_views(reminders@));
            let ghost start = self.last_shown();
            let n = reminders.len();
            let mut i: usize = 0;
            while i < n
                invariant
                    n == reminders@.len(),
                    i <= n,
                    ids == ids_of(reminder_views(reminders@)),
                    self.last_shown() == set_all(start, ids.take(i as int), now),
                    self.snoozed() == old(self).snoozed(),
                    self.tick() == Some(tick),
                decreases n - i,
            {
                proof {
                    assert(ids.take(i + 1).drop_last() =~= ids.take(i as int));
                }
                self.last_triggered.set(reminders[i].id.as_str(), now);
                i = i + 1;
            }
            assert(ids.take(n as int) =~= ids);
        }
        resumed
    }

    /// Records `timestamp` as the last-shown time of each id.
    pub fn mark_triggered(&mut self, ids: &Vec<String>, timestamp: i64)
        ensures
            final(self).last_shown() == set_all(old(self).last_shown(), texts_view(ids@), timestamp),
            final(self).snoozed() == old(self).snoozed(),
            final(self).tick() == old(self).tick(),
    {
        let ghost keys = texts_view(ids@);
        let ghost start = self.last_shown();
        let n = ids.len();
        let mut i: usize = 0;
        while i < n
            invariant
                n == ids@.len(),
                i <= n,
                keys == texts_view(ids@),
                self.last_shown() == set_all(start, keys.take(i as int), timestamp),
                self.snoozed() == old(self).snoozed(),
                self.tick() == old(self).tick(),
            decreases n - i,
        {
            proof {
                assert(keys.take(i + 1).drop_last() =~= keys.take(i as int));
            }
            self.last_triggered.set(ids[i].as_str(), timestamp);
            i = i + 1;
        }
        assert(keys.take(n as int) =~= keys);
    }

    /// Applies a bubble action: its reminders count as shown now; "snooze"
    /// holds them back for five minutes, anything else lifts their snooze.
    pub fn handle_action(&mut self, action: &BubbleAction, now: i64)
        requires
            now + snooze_millis() <= i64::MAX,
        ensures
            final(self).last_shown() == set_all(
                old(self).last_shown(),
                texts_view(action.reminder_ids@),
                now,
            ),
            final(self).snoozed() == (if action.action@ == "snooze"@ {
                set_all(old(self).snoozed(), texts_view(action.reminder_ids@), (now
                    + snooze_millis()) as i64)
            } else {
                remove_all(old(self).snoozed(), texts_view(action.reminder_ids@))
            }),
            final(self).tick() == old(self).tick(),
    {
        self.mark_triggered(&action.reminder_ids, now);
        let snooze = same_text(action.action.as_str(), "snooze");
        let ghost keys = texts_view(action.reminder_ids@);
        let ghost start = self.snoozed();
        let n = action.reminder_ids.len();
        let mut i: usize = 0;
        while i < n
            invariant
                n == action.reminder_ids@.len(),
                i <= n,
                keys == texts_view(action.reminder_ids@),
                snooze == (action.action@ == "snooze"@),
                now + snooze_millis() <= i64::MAX,
                self.snoozed() == (if snooze {
                    set_all(start, keys.take(i as int), (now + snooze_millis()) as i64)
                } else {
                    remove_all(start, keys.take(i as int))
                }),
                self.last_shown() == set_all(
                    old(self).last_shown(),
                    texts_view(action.reminder_ids@),
                    now,
                ),
                self.tick() == old(self).tick(),
            decreases n - i,
        {
            proof {
                assert(keys.take(i + 1).drop_last() =~= keys.take(i as int));
            }
            if snooze {
                self.snoozed_until.set(action.reminder_ids[i].as_str(), now + 300_000);
            } else {
                self.snoozed_until.remove(action.reminder_ids[i].as_str());
            }
            i = i + 1;
        }
        assert(keys.take(n as int) =~= keys);
    }

    /// The enabled, unsnoozed reminders that come due within `window_millis`
    /// of `now`, in the order given. Interval reminders are decided
    /// exactly; a daily reminder's due time comes from the local calendar.
    pub fn due_within(&self, reminders: &Vec<Reminder>, window_millis: i64, now: i64) -> (r: Vec<
        Reminder,
    >)
        requires
            0 <= window_millis,
            now + window_millis <= i64::MAX,
            self.due_times_fit(reminder_views(reminders@), now),
        ensures
            exists|dues: Seq<Option<i64>>|
                dues_possible(
                    reminder_views(reminders@),
                    dues,
                    self.last_shown(),
                    self.snoozed(),
                    now,
                ) && reminder_views(r@) == select_due(
                    reminder_views(reminders@),
                    dues,
                    self.snoozed(),
                    now,
                    now + window_millis,
                ),
    {
        let ghost rs = reminder_views(reminders@);
        let horizon = now + window_millis;
        let mut due: Vec<Reminder> = Vec::new();
        let ghost mut dues: Seq<Option<i64>> = seq![];
        let n = reminders.len();
        let mut i: usize = 0;
        while i < n
            invariant
                n == reminders@.len(),
                i <= n,
                rs == reminder_views(reminders@),
                horizon == now + window_millis,
                self.due_times_fit(rs, now),
                dues.len() == i,
                forall|j: int|
                    0 <= j < i && is_eligible(rs[j], self.snoozed(), now) ==> next_due_outcome(
                        rs[j],
                        previous_time(self.last_shown(), rs[j].id, now),
                        now,
                        #[trigger] dues[j],
                    ),
                reminder_views(due@) == select_due(
                    rs.take(i as int),
                    dues,
                    self.snoozed(),
                    now,
                    horizon as int,
                ),
            decreases n - i,
        {
            let item = &reminders[i];
            let ghost old_dues = dues;
            let ghost old_due = due@;
            proof {
                assert(rs.take(i + 1).drop_last() =~= rs.take(i as int));
                assert(rs.take(i + 1)[i as int] == rs[i as int]);
            }
            let snoozed = match self.snoozed_until.get(item.id.as_str()) {
                Some(until) => until > now,
                None => false,
            };
            if !item.enabled || snoozed {
                proof {
                    dues = dues.push(None);
                    assert(dues.drop_last() =~= old_dues);
                    assert(!is_eligible(rs[i as int], self.snoozed(), now));
                }
                assert(reminder_views(due@) =~= select_due(
                    rs.take(i + 1),
                    dues,
                    self.snoozed(),
                    now,
                    horizon as int,
                ));
            } else {
                let previous = match self.last_triggered.get(item.id.as_str()) {
                    Some(t) => t,
                    None => now,
                };
                assert(is_eligible(rs[i as int], self.snoozed(), now));
                let next = next_due(item, previous, now);
                proof {
                    dues = dues.push(next);
                }
                let is_due = match next {
                    Some(d) => d <= horizon,
                    None => false,
                };
                if is_due {
                    due.push(item.clone());
                    assert(reminder_views(due@) =~= reminder_views(old_due).push(rs[i as int]));
                }
                proof {
                    assert(dues.drop_last() =~= old_dues);
                }
                assert(reminder_views(due@) =~= select_due(
                    rs.take(i + 1),
                    dues,
                    self.snoozed(),
                    now,
                    horizon as int,
                ));
            }
            i = i + 1;
        }
        assert(rs.take(n as int) =~= rs);
        assert(dues_possible(rs, dues, self.last_shown(), self.snoozed(), now));
        due
    }
    /// One round of the reminder loop at wall-clock `now` and monotonic
    /// `tick`: start the clock and fill in missing reminders; after a sleep,
    /// or while the pet is paused, fullscreen, dragged or in use (`held`),
    /// show nothing; otherwise the reminders due within five minutes, if
    /// any, make a bubble and count as shown at `now`.
    pub fn poll(&mut self, reminders: &Vec<Reminder>, now: i64, tick: u64, held: bool) -> (r:
        Option<BubblePayload>)
        requires
            now <= LATEST_REMINDER_TIME,
            times_at_most(old(self).last_shown(), LATEST_REMINDER_TIME),
        ensures
            final(self).tick() == Some(tick),
            final(self).snoozed() == old(self).snoozed(),
            times_at_most(final(self).last_shown(), LATEST_REMINDER_TIME),
            ({
                let rs = reminder_views(reminders@);
                let started = started_times(old(self).last_shown(), old(self).tick(), rs, now, tick);
                if clock_resumed(old(self).tick(), tick) || held {
                    r is None && final(self).last_shown() == started
                } else {
                    exists|dues: Seq<Option<i64>>|
                        #[trigger] dues_possible(rs, dues, started, old(self).snoozed(), now)
                            && round_result(
                            select_due(rs, dues, old(self).snoozed(), now, now + due_window_millis()),
                            started,
                            now,
                            r,
                            final(self).last_shown(),
                        )
                }
            }),
    {
        let ghost rs = reminder_views(reminders@);
        let ghost start_tick = self.tick();
        proof {
            lemma_fill_missing_at_most(self.last_shown(), rs, now, LATEST_REMINDER_TIME);
        }
        self.initialize(reminders, now, tick);
        let resumed = self.reset_after_sleep(reminders, now, tick);
        assert(resumed == clock_resumed(start_tick, tick));
        proof {
            lemma_set_all_at_most(
                fill_missing(old(self).last_shown(), rs, now),
                ids_of(rs),
                now,
                LATEST_REMINDER_TIME,
            );
        }
        if resumed || held {
            return None;
        }
        let ghost started = self.last_shown();
        assert forall|i: int|
            0 <= i < rs.len() && is_eligible(rs[i], self.snoozed(), now) implies due_time_fits(
            #[trigger] rs[i],
            previous_time(self.last_shown(), rs[i].id, now),
        ) by {
            let id = rs[i].id;
            if self.last_shown().contains_key(id) {
                assert(self.last_shown()[id] <= LATEST_REMINDER_TIME);
            }
        }
        let due = self.due_within(reminders, 300_000, now);
        let ghost dues = choose|dues: Seq<Option<i64>>|
            dues_possible(rs, dues, started, self.snoozed(), now) && reminder_views(due@)
                == select_due(rs, dues, self.snoozed(), now, now + 300_000);
        assert(started == started_times(old(self).last_shown(), start_tick, rs, now, tick));
        assert(dues_possible(rs, dues, started, old(self).snoozed(), now));
        if due.len() == 0 {
            assert(round_result(reminder_views(due@), started, now, None, self.last_shown()));
            return None;
        }
        let payload = compose_bubble(&due);
        self.mark_triggered(&payload.reminder_ids, now);
        proof {
            lemma_set_all_at_most(started, ids_of(reminder_views(due@)), now, LATEST_REMINDER_TIME);
        }
        assert(round_result(reminder_views(due@), started, now, Some(payload), self.last_shown()));
        Some(payload)
    }
}

} // verus!
