//! The state of the scheduling helper's window, and what each message makes of it.
use vstd::prelude::*;

use crate::calendar;
use crate::calendar::{CalendarEventBlock, CalendarInfo};
use crate::date;
use crate::date::{Date, MAX_DAY};
use crate::free_time;
use crate::free_time::Slot;
use crate::grid::HOUR_LIMIT;
use crate::local_time;
use crate::local_time::LocalTime;
use crate::locale::Locale;
use crate::scheduling;
use crate::scheduling::Span;
use crate::text;
use crate::uid_set::UidSet;

verus! {

/// How many days of events to fetch up front, so that each week that can be paged to has its own.
pub const FETCH_DAYS: u32 = 28;

/// The last week that can be paged to; the current week is week 0.
pub const MAX_WEEK_OFFSET: u32 = 3;

/// A page of the options.
#[derive(Clone, Copy, Debug, PartialEq, Eq, Structural)]
pub enum OptionsPage {
    Main,
    Calendars,
}

impl Default for OptionsPage {
    fn default() -> (page: OptionsPage)
        ensures
            page == OptionsPage::Main,
    {
        OptionsPage::Main
    }
}

/// What can happen to the window.
#[derive(Clone, Debug)]
pub enum Msg {
    EventsLoaded(Vec<CalendarEventBlock>),
    CalendarsLoaded(Vec<CalendarInfo>),
    ToggleCalendar(String),
    SetDayStart(u32),
    SetDayEnd(u32),
    SetWeekends(bool),
    ToggleOptions,
    CloseOptions,
    OpenCalendarsPage,
    OptionsBack,
    PrevWeek,
    NextWeek,
    AddAvailability(LocalTime, LocalTime),
    ResizeAvailability(usize, LocalTime, LocalTime),
    RemoveAvailability(usize),
    Copy,
    Clear,
    AutoPick,
    Close,
}

/// What is left to do after a message.
#[derive(Debug)]
pub enum Effect {
    Nothing,
    /// Put a text on the clipboard.
    WriteClipboard(String),
    /// End the program.
    Exit,
}

/// The state of the window.
#[derive(Debug)]
pub struct SchedulingApp {
    /// The calendars that are enabled; all are where there is none here.
    pub enabled_uids: Vec<String>,
    /// The user's other addresses.
    pub additional_emails: Vec<String>,
    /// The first hour of the day that is shown (0-23).
    pub day_start_hour: u32,
    /// The hour of the day at which the grid ends (1-24).
    pub day_end_hour: u32,
    /// Whether Saturdays and Sundays are shown.
    pub include_weekends: bool,
    /// Which week is shown; week 0 starts today.
    pub week_offset: u32,
    /// All events that were fetched.
    pub events: Vec<CalendarEventBlock>,
    /// The events of the selected calendars, which are the ones that are shown.
    pub visible_events: Vec<CalendarEventBlock>,
    /// The calendars that hold meetings.
    pub calendars: Vec<CalendarInfo>,
    /// The calendars that are selected; by default, all that are enabled.
    pub selected_calendars: UidSet,
    /// The spans that the user has marked.
    pub availability: Vec<Span>,
    /// Whether the events are still being fetched.
    pub loading: bool,
    /// Whether the options are open.
    pub show_options: bool,
    /// The page that the options are at.
    pub options_page: OptionsPage,
}

/// What the state of the window says.
#[verifier::ext_equal]
pub struct AppView {
    pub enabled_uids: Seq<Seq<char>>,
    pub additional_emails: Seq<Seq<char>>,
    pub day_start_hour: u32,
    pub day_end_hour: u32,
    pub include_weekends: bool,
    pub week_offset: u32,
    pub events: Seq<CalendarEventBlock>,
    pub visible_events: Seq<CalendarEventBlock>,
    pub calendars: Seq<CalendarInfo>,
    pub selected_calendars: Set<Seq<char>>,
    pub availability: Seq<Span>,
    pub loading: bool,
    pub show_options: bool,
    pub options_page: OptionsPage,
}

impl View for SchedulingApp {
    type V = AppView;

    open spec fn view(&self) -> AppView {
        AppView {
            enabled_uids: text::texts(self.enabled_uids@),
            additional_emails: text::texts(self.additional_emails@),
            day_start_hour: self.day_start_hour,
            day_end_hour: self.day_end_hour,
            include_weekends: self.include_weekends,
            week_offset: self.week_offset,
            events: self.events@,
            visible_events: self.visible_events@,
            calendars: self.calendars@,
            selected_calendars: self.selected_calendars@,
            availability: self.availability@,
            loading: self.loading,
            show_options: self.show_options,
            options_page: self.options_page,
        }
    }
}

impl SchedulingApp {
    /// Whether the times are well-formed, and the week is one that can be paged to.
    pub open spec fn wf(self) -> bool {
        &&& self.week_offset <= MAX_WEEK_OFFSET
        &&& calendar::events_wf(self.events@)
        &&& calendar::events_wf(self.visible_events@)
        &&& scheduling::spans_wf(self.availability@)
        &&& self.selected_calendars.wf()
    }
}

/// Whether the calendar `uid` is enabled, given the list of those that are: an empty list stands
/// for all.
pub open spec fn is_enabled(enabled_uids: Seq<Seq<char>>, uid: Seq<char>) -> bool {
    enabled_uids.len() == 0 || enabled_uids.contains(uid)
}

/// The events of the calendars `selected`.
pub open spec fn events_of(
    events: Seq<CalendarEventBlock>,
    selected: Set<Seq<char>>,
) -> Seq<CalendarEventBlock> {
    events.filter(|e: CalendarEventBlock| selected.contains(e.calendar_uid@))
}

/// The events that are shown: those of the selected calendars, or all as long as no calendar is
/// known.
pub open spec fn shown_events(v: AppView) -> Seq<CalendarEventBlock> {
    if v.calendars.len() == 0 {
        v.events
    } else {
        events_of(v.events, v.selected_calendars)
    }
}

/// The state with the events that are shown worked out anew.
pub open spec fn recomputed(v: AppView) -> AppView {
    AppView { visible_events: shown_events(v), ..v }
}

/// The calendars among `calendars` that hold meetings.
pub open spec fn meeting_sources(calendars: Seq<CalendarInfo>) -> Seq<CalendarInfo> {
    calendars.filter(|c: CalendarInfo| c.meeting_source)
}

/// Whether `uid` is one of `calendars`.
pub open spec fn lists(calendars: Seq<CalendarInfo>, uid: Seq<char>) -> bool {
    exists|i: int| 0 <= i < calendars.len() && (#[trigger] calendars[i]).uid@ == uid
}

/// The calendars that are enabled.
pub open spec fn all_enabled(
    calendars: Seq<CalendarInfo>,
    enabled_uids: Seq<Seq<char>>,
) -> Set<Seq<char>> {
    Set::new(|uid: Seq<char>| lists(calendars, uid) && is_enabled(enabled_uids, uid))
}

/// The state in which the window opens.
pub open spec fn initial(
    enabled_uids: Seq<Seq<char>>,
    additional_emails: Seq<Seq<char>>,
) -> AppView {
    AppView {
        enabled_uids,
        additional_emails,
        day_start_hour: 9,
        day_end_hour: 17,
        include_weekends: false,
        week_offset: 0,
        events: Seq::empty(),
        visible_events: Seq::empty(),
        calendars: Seq::empty(),
        selected_calendars: Set::empty(),
        availability: Seq::empty(),
        loading: true,
        show_options: false,
        options_page: OptionsPage::Main,
    }
}

impl SchedulingApp {
    /// The window as it opens, with the calendars that are enabled and the user's other addresses.
    pub fn init(enabled_uids: Vec<String>, additional_emails: Vec<String>) -> (app: SchedulingApp)
        ensures
            app.wf(),
            app@ == initial(text::texts(enabled_uids@), text::texts(additional_emails@)),
    {
        SchedulingApp {
            enabled_uids,
            additional_emails,
            day_start_hour: 9,
            day_end_hour: 17,
            include_weekends: false,
            week_offset: 0,
            events: Vec::new(),
            visible_events: Vec::new(),
            calendars: Vec::new(),
            selected_calendars: UidSet::new(),
            availability: Vec::new(),
            loading: true,
            show_options: false,
            options_page: OptionsPage::default(),
        }
    }

    /// Whether a calendar is enabled; all are where the list of them is empty.
    pub fn is_calendar_enabled(&self, uid: &String) -> (b: bool)
        ensures
            b == is_enabled(self@.enabled_uids, uid@),
    {
        if self.enabled_uids.len() == 0 {
            return true;
        }
        let ghost all = text::texts(self.enabled_uids@);
        let mut i: usize = 0;
        while i < self.enabled_uids.len()
            invariant
                i <= self.enabled_uids@.len(),
                all == text::texts(self.enabled_uids@),
                forall|k: int| 0 <= k < i ==> #[trigger] all[k] != uid@,
            decreases self.enabled_uids@.len() - i,
        {
            if self.enabled_uids[i] == *uid {
                assert(all[i as int] == uid@);
                return true;
            }
            i += 1;
        }
        false
    }

    /// Works out anew which events are shown.
    pub fn recompute_visible_events(&mut self)
        requires
            old(self).wf(),
        ensures
            final(self).wf(),
            final(self)@ == recomputed(old(self)@),
    {
        let all = self.calendars.len() == 0;
        let ghost selected = self.selected_calendars@;
        let ghost keep = |e: CalendarEventBlock| selected.contains(e.calendar_uid@);
        let mut visible: Vec<CalendarEventBlock> = Vec::new();
        let mut i: usize = 0;
        proof {
            reveal(Seq::filter);
        }
        while i < self.events.len()
            invariant
                i <= self.events@.len(),
                *self == *old(self),
                self.wf(),
                selected == self.selected_calendars@,
                keep == |e: CalendarEventBlock| selected.contains(e.calendar_uid@),
                visible@ == if all {
                    self.events@.take(i as int)
                } else {
                    self.events@.take(i as int).filter(keep)
                },
                calendar::events_wf(visible@),
            decreases self.events@.len() - i,
        {
            proof {
                reveal(Seq::filter);
                assert(self.events@.take(i + 1).drop_last() == self.events@.take(i as int));
            }
            let event = &self.events[i];
            if all || self.selected_calendars.contains(&event.calendar_uid) {
                visible.push(event.clone());
            }
            assert(all ==> visible@ == self.events@.take(i + 1));
            i += 1;
        }
        assert(self.events@.take(i as int) == self.events@);
        self.visible_events = visible;
    }
}

/// The days from day `base` up to, but without, day `base + k`, as far as a date can name them.
/// Without `weekends`, Saturdays and Sundays are left out.
pub open spec fn days_from(base: int, weekends: bool, k: int) -> Seq<Date>
    decreases k,
{
    if k <= 0 {
        Seq::empty()
    } else {
        let before = days_from(base, weekends, k - 1);
        let n = base + k - 1;
        if n <= MAX_DAY && (weekends || !date::is_weekend(n)) {
            before.push(Date { day_number: n as i32 })
        } else {
            before
        }
    }
}

/// The first day of the week that is shown, if today is day `today`.
pub open spec fn week_start(v: AppView, today: int) -> int {
    today + 7 * v.week_offset
}

/// The days that are shown, if today is day `today`.
pub open spec fn shown_days(v: AppView, today: int) -> Seq<Date> {
    days_from(week_start(v, today), v.include_weekends, 7)
}

/// Whether `days` are the days that are shown, if today is `today`: there are none only where the
/// week starts behind the last day that a date can name.
pub open spec fn are_days_of(v: AppView, today: Date, days: Option<Vec<Date>>) -> bool {
    &&& today.wf()
    &&& days is Some <==> week_start(v, today.n()) <= MAX_DAY
    &&& days matches Some(days) ==> days@ == shown_days(v, today.n()) && free_time::days_ascend(
        days@,
    )
}

/// Whether `days` are the days that are shown at the time `now`, on the date `today` that it shows.
pub open spec fn shows_on(
    v: AppView,
    now: LocalTime,
    today: Date,
    days: Option<Vec<Date>>,
) -> bool {
    today.n() == now.day() && are_days_of(v, today, days)
}

/// The days follow one another, and each can be named by a date.
pub proof fn lemma_days_ascend(base: int, weekends: bool, k: int)
    requires
        date::MIN_DAY <= base,
    ensures
        free_time::days_ascend(days_from(base, weekends, k)),
        forall|i: int|
            0 <= i < days_from(base, weekends, k).len() ==> base <= (#[trigger] days_from(
                base,
                weekends,
                k,
            )[i]).n() < base + k,
    decreases k,
{
    if k > 0 {
        lemma_days_ascend(base, weekends, k - 1);
        let before = days_from(base, weekends, k - 1);
        let days = days_from(base, weekends, k);
        assert forall|i: int| 0 <= i < days.len() implies (#[trigger] days[i]).wf() && base
            <= days[i].n() < base + k by {
            if i < before.len() {
                assert(before[i].wf());
            }
        }
        assert forall|i: int, j: int| 0 <= i < j < days.len() implies (#[trigger] days[i]).n() < (
        #[trigger] days[j]).n() by {
            if j < before.len() {
                assert(before[i].n() < before[j].n());
            } else {
                assert(before[i].n() < base + k - 1);
            }
        }
    }
}

impl SchedulingApp {
    /// The days that are shown, if today is `today`: the week that starts then, or a later one,
    /// without Saturdays and Sundays unless they are included. `None` if the week starts behind the
    /// last day that a date can name.
    pub fn visible_days_from(&self, today: Date) -> (days: Option<Vec<Date>>)
        requires
            today.wf(),
            self.wf(),
        ensures
            days is Some <==> week_start(self@, today.n()) <= MAX_DAY,
            days matches Some(days) ==> days@ == shown_days(self@, today.n())
                && free_time::days_ascend(days@),
    {
        let base = match today.checked_add_days(7 * self.week_offset as u64) {
            Some(base) => base,
            None => {
                return None;
            },
        };
        let mut days: Vec<Date> = Vec::new();
        let mut d: u64 = 0;
        while d < 7
            invariant
                d <= 7,
                base.wf(),
                days@ == days_from(base.n(), self.include_weekends, d as int),
            decreases 7 - d,
        {
            match base.checked_add_days(d) {
                Some(date) => {
                    if self.include_weekends || !date.is_weekend() {
                        days.push(date);
                    }
                },
                None => {},
            }
            d += 1;
        }
        proof {
            lemma_days_ascend(base.n(), self.include_weekends, 7);
        }
        Some(days)
    }

    /// The days that are shown today. The current week can always be shown.
    pub fn visible_days(&self) -> (days: Option<Vec<Date>>)
        requires
            self.wf(),
        ensures
            self.week_offset == 0 ==> days is Some,
            exists|now: LocalTime, today: Date|
                local_time::is_clock_reading(now) && today.n() == now.day() && #[trigger] shows_on(
                    self@,
                    now,
                    today,
                    days,
                ),
    {
        let now = local_time::now();
        let today = now.date_naive();
        let days = self.visible_days_from(today);
        assert(shows_on(self@, now, today, days));
        days
    }
}

/// Whether the hours that are shown can be counted in minutes.
pub open spec fn hours_fit(v: AppView) -> bool {
    v.day_start_hour <= HOUR_LIMIT && v.day_end_hour <= HOUR_LIMIT
}

/// Whether `slots` are the free windows that can be offered on `days`: those between the events
/// that are shown, within the hours that are shown, and from `now` on.
pub open spec fn are_pickable(v: AppView, days: Seq<Date>, now: LocalTime, slots: Seq<Slot>) -> bool {
    free_time::lists_free_slots(
        slots,
        v.visible_events,
        days,
        now,
        v.day_start_hour * 60,
        v.day_end_hour * 60,
    )
}

/// The state with the spans `added` marked as well.
pub open spec fn with_spans(v: AppView, added: Seq<Span>) -> AppView {
    AppView { availability: scheduling::merged(v.availability + added), ..v }
}

/// The times that the machine's time zone has for the start and for the end of a slot.
pub type Found = (Option<LocalTime>, Option<LocalTime>);

/// Whether `found` can be what the machine's time zone answers for the ends of `slot`.
pub open spec fn are_ends_of(found: Found, slot: Slot) -> bool {
    &&& local_time::answers(found.0, slot.date, slot.from as int)
    &&& local_time::answers(found.1, slot.date, slot.to as int)
    &&& local_time::is_zone_answer(found.0, slot.date, slot.from as int)
    &&& local_time::is_zone_answer(found.1, slot.date, slot.to as int)
}

/// The spans between the times that were found, with `now` for each that was not.
pub open spec fn spans_of(found: Seq<Found>, now: LocalTime) -> Seq<Span> {
    Seq::new(
        found.len(),
        |i: int| (local_time::found_or(found[i].0, now), local_time::found_or(found[i].1, now)),
    )
}

/// The spans that are marked for slots, given what the machine's time zone answered for their ends.
pub fn picked_spans(found: &Vec<Found>, now: LocalTime) -> (added: Vec<Span>)
    ensures
        added@ == spans_of(found@, now),
{
    let mut added: Vec<Span> = Vec::new();
    let mut i: usize = 0;
    while i < found.len()
        invariant
            i <= found@.len(),
            added@ == spans_of(found@.take(i as int), now),
        decreases found@.len() - i,
    {
        let (start, end) = found[i];
        added.push((local_time::or_now(start, now), local_time::or_now(end, now)));
        i += 1;
        assert(added@ == spans_of(found@.take(i as int), now));
    }
    assert(found@.take(i as int) == found@);
    added
}

/// Whether `after` is what picking free time can make of `v`: the free windows of the week that
/// starts at `today`, or of a later one, are marked, each by one span.
pub open spec fn is_auto_pick(
    v: AppView,
    after: AppView,
    today: int,
    now: LocalTime,
    slots: Seq<Slot>,
    found: Seq<Found>,
) -> bool {
    &&& are_pickable(v, shown_days(v, today), now, slots)
    &&& found.len() == slots.len()
    &&& forall|i: int| 0 <= i < slots.len() ==> are_ends_of(found[i], #[trigger] slots[i])
    &&& after == with_spans(v, spans_of(found, now))
}

/// Whether `after` is what picking free time can make of `v` at the time `now`, if today is day
/// `today`. Nothing is picked where no hours are shown, or where the week starts behind the last
/// day that a date can name.
pub open spec fn picked_at(v: AppView, after: AppView, now: LocalTime, today: int) -> bool {
    if v.day_end_hour <= v.day_start_hour || week_start(v, today) > MAX_DAY {
        after == v
    } else {
        exists|slots: Seq<Slot>, found: Seq<Found>| #[trigger]
            is_auto_pick(v, after, today, now, slots, found)
    }
}

/// Whether `after` is what picking free time can make of `v`: what it makes of it at some time that
/// the clock gave, on the day that the clock showed then.
pub open spec fn auto_picked(v: AppView, after: AppView) -> bool {
    exists|now: LocalTime|
        now.wf() && local_time::is_clock_reading(now) && #[trigger] picked_at(
            v,
            after,
            now,
            now.day(),
        )
}

impl SchedulingApp {
    /// The free windows of `days` from `now` on.
    pub fn pickable_slots(&self, days: &Vec<Date>, now: &LocalTime) -> (slots: Vec<Slot>)
        requires
            self.wf(),
            hours_fit(self@),
            self.day_start_hour < self.day_end_hour,
            free_time::days_ascend(days@),
            now.wf(),
        ensures
            are_pickable(self@, days@, *now, slots@),
    {
        free_time::free_slots(
            &self.visible_events,
            days,
            self.day_start_hour as i32 * 60,
            self.day_end_hour as i32 * 60,
            now,
        )
    }

    /// Marks the spans `added` as well.
    pub fn mark(&mut self, added: &Vec<Span>)
        requires
            old(self).wf(),
            scheduling::spans_wf(added@),
        ensures
            final(self).wf(),
            final(self)@ == with_spans(old(self)@, added@),
    {
        let ghost before = self.availability@;
        let mut i: usize = 0;
        while i < added.len()
            invariant
                i <= added@.len(),
                *self == (SchedulingApp { availability: self.availability, ..*old(self) }),
                before == old(self).availability@,
                self.availability@ == before + added@.take(i as int),
            decreases added@.len() - i,
        {
            self.availability.push(added[i]);
            i += 1;
            assert(self.availability@ == before + added@.take(i as int));
        }
        proof {
            let spans = self.availability@;
            assert(spans == before + added@);
            assert forall|i: int| 0 <= i < spans.len() implies (#[trigger] spans[i]).0.wf()
                && spans[i].1.wf() by {
                if i < before.len() {
                    assert(before[i].0.wf());
                } else {
                    assert(added@[i - before.len()].0.wf());
                }
            }
            scheduling::lemma_merged_wf(spans);
        }
        self.availability = scheduling::merge_spans(self.availability.as_slice());
    }

    /// Marks all free windows of the days that are shown, beside what is marked already, if it is
    /// `now` and today is `today`. What is past is skipped.
    pub fn auto_pick_at(&mut self, now: LocalTime, today: Date)
        requires
            old(self).wf(),
            hours_fit(old(self)@),
            now.wf(),
            today.wf(),
        ensures
            final(self).wf(),
            picked_at(old(self)@, final(self)@, now, today.n()),
    {
        if self.day_end_hour <= self.day_start_hour {
            return;
        }
        let days = match self.visible_days_from(today) {
            Some(days) => days,
            None => {
                return;
            },
        };
        let slots = self.pickable_slots(&days, &now);
        assert forall|i: int| 0 <= i < slots@.len() implies (#[trigger] slots@[i]).date.wf() by {
            assert(slots@.contains(slots@[i]));
        }
        let mut found: Vec<Found> = Vec::new();
        let mut i: usize = 0;
        while i < slots.len()
            invariant
                i <= slots@.len(),
                found@.len() == i,
                forall|k: int| 0 <= k < i ==> are_ends_of(found@[k], #[trigger] slots@[k]),
                forall|i: int| 0 <= i < slots@.len() ==> (#[trigger] slots@[i]).date.wf(),
            decreases slots@.len() - i,
        {
            let slot = slots[i];
            found.push(
                (
                    local_time::resolve_local(slot.date, slot.from),
                    local_time::resolve_local(slot.date, slot.to),
                ),
            );
            i += 1;
        }
        let added = picked_spans(&found, now);
        assert forall|k: int| 0 <= k < added@.len() implies (#[trigger] added@[k]).0.wf()
            && added@[k].1.wf() by {
            assert(are_ends_of(found@[k], slots@[k]));
        }
        self.mark(&added);
        assert(is_auto_pick(old(self)@, self@, today.n(), now, slots@, found@));
    }

    /// Marks all free windows of the days that are shown, beside what is marked already. What is
    /// past is skipped.
    pub fn auto_pick(&mut self)
        requires
            old(self).wf(),
            hours_fit(old(self)@),
        ensures
            final(self).wf(),
            auto_picked(old(self)@, final(self)@),
    {
        let now = local_time::now();
        self.auto_pick_at(now, now.date_naive());
        assert(picked_at(old(self)@, self@, now, now.day()));
    }
}

/// The state with the calendar `uid` selected, or, if it was selected, no longer selected. A
/// calendar that is not enabled cannot be toggled.
pub open spec fn toggled(v: AppView, uid: Seq<char>) -> AppView {
    if !is_enabled(v.enabled_uids, uid) {
        v
    } else if v.selected_calendars.contains(uid) {
        recomputed(AppView { selected_calendars: v.selected_calendars.remove(uid), ..v })
    } else {
        recomputed(AppView { selected_calendars: v.selected_calendars.insert(uid), ..v })
    }
}

/// The state with the given calendars, as far as they hold meetings; those that are enabled are
/// selected.
pub open spec fn with_calendars(v: AppView, calendars: Seq<CalendarInfo>) -> AppView {
    let sources = meeting_sources(calendars);
    recomputed(
        AppView {
            calendars: sources,
            selected_calendars: all_enabled(sources, v.enabled_uids),
            ..v
        },
    )
}

/// The state with the day starting at hour `hour`. Where it would end by then, it ends an hour
/// later, at midnight at the latest.
pub open spec fn with_day_start(v: AppView, hour: u32) -> AppView {
    let end = if v.day_end_hour > hour {
        v.day_end_hour
    } else if hour < 23 {
        (hour + 1) as u32
    } else {
        24
    };
    AppView { day_start_hour: hour, day_end_hour: end, ..v }
}

/// The state with the day ending at hour `hour`. Where it would not have started by then, it starts
/// an hour earlier, at midnight at the earliest.
pub open spec fn with_day_end(v: AppView, hour: u32) -> AppView {
    let start = if v.day_start_hour < hour {
        v.day_start_hour
    } else if hour > 0 {
        (hour - 1) as u32
    } else {
        0
    };
    AppView { day_start_hour: start, day_end_hour: hour, ..v }
}

/// What a message makes of the state. (What picking free time makes of it depends on more than the
/// state.)
pub open spec fn step(v: AppView, msg: Msg) -> AppView {
    match msg {
        Msg::EventsLoaded(events) => recomputed(
            AppView { events: events@, loading: false, ..v },
        ),
        Msg::CalendarsLoaded(calendars) => with_calendars(v, calendars@),
        Msg::ToggleCalendar(uid) => toggled(v, uid@),
        Msg::SetDayStart(hour) => with_day_start(v, hour),
        Msg::SetDayEnd(hour) => with_day_end(v, hour),
        Msg::SetWeekends(enabled) => AppView { include_weekends: enabled, ..v },
        Msg::ToggleOptions => AppView {
            show_options: !v.show_options,
            options_page: if v.show_options {
                v.options_page
            } else {
                OptionsPage::Main
            },
            ..v
        },
        Msg::CloseOptions => AppView { show_options: false, ..v },
        Msg::OpenCalendarsPage => AppView { options_page: OptionsPage::Calendars, ..v },
        Msg::OptionsBack => AppView { options_page: OptionsPage::Main, ..v },
        Msg::PrevWeek => AppView {
            week_offset: if v.week_offset > 0 {
                (v.week_offset - 1) as u32
            } else {
                0
            },
            ..v
        },
        Msg::NextWeek => AppView {
            week_offset: if v.week_offset < MAX_WEEK_OFFSET {
                (v.week_offset + 1) as u32
            } else {
                MAX_WEEK_OFFSET
            },
            ..v
        },
        Msg::AddAvailability(start, end) => with_spans(v, seq![(start, end)]),
        Msg::ResizeAvailability(i, start, end) => if i < v.availability.len() {
            AppView {
                availability: scheduling::merged(v.availability.update(i as int, (start, end))),
                ..v
            }
        } else {
            v
        },
        Msg::RemoveAvailability(i) => if i < v.availability.len() {
            AppView { availability: v.availability.remove(i as int), ..v }
        } else {
            v
        },
        Msg::Clear => AppView { availability: Seq::empty(), ..v },
        Msg::Copy | Msg::AutoPick | Msg::Close => v,
    }
}

/// Whether `after` is what the message can make of the state.
pub open spec fn follows(v: AppView, msg: Msg, after: AppView) -> bool {
    if msg is AutoPick {
        auto_picked(v, after)
    } else {
        after == step(v, msg)
    }
}

/// Whether `effect` is what is left to do after the message: the text is copied if there is any.
pub open spec fn is_effect(
    v: AppView,
    msg: Msg,
    locale: Locale,
    intro: Seq<char>,
    effect: Effect,
) -> bool {
    let text = scheduling::message(locale, v.availability, intro);
    match msg {
        Msg::Copy => if text.len() > 0 {
            effect matches Effect::WriteClipboard(t) && t@ == text
        } else {
            effect is Nothing
        },
        Msg::Close => effect is Exit,
        _ => effect is Nothing,
    }
}

impl Msg {
    /// Whether the times in the message are well-formed, and its hours can be counted.
    pub open spec fn wf(self, v: AppView) -> bool {
        match self {
            Msg::EventsLoaded(events) => calendar::events_wf(events@),
            Msg::AddAvailability(start, end) => start.wf() && end.wf(),
            Msg::ResizeAvailability(_, start, end) => start.wf() && end.wf(),
            Msg::SetDayStart(hour) => hour < v.day_end_hour || hour < u32::MAX,
            Msg::AutoPick => hours_fit(v),
            _ => true,
        }
    }
}

impl SchedulingApp {
    fn load_calendars(&mut self, calendars: &Vec<CalendarInfo>)
        requires
            old(self).wf(),
        ensures
            final(self).wf(),
            final(self)@ == with_calendars(old(self)@, calendars@),
    {
        let mut sources: Vec<CalendarInfo> = Vec::new();
        let ghost keep = |c: CalendarInfo| c.meeting_source;
        let mut i: usize = 0;
        proof {
            reveal(Seq::filter);
        }
        while i < calendars.len()
            invariant
                i <= calendars@.len(),
                keep == |c: CalendarInfo| c.meeting_source,
                sources@ == calendars@.take(i as int).filter(keep),
            decreases calendars@.len() - i,
        {
            proof {
                reveal(Seq::filter);
                assert(calendars@.take(i + 1).drop_last() == calendars@.take(i as int));
            }
            if calendars[i].is_meeting_source() {
                sources.push(calendars[i].clone());
            }
            i += 1;
        }
        assert(calendars@.take(i as int) == calendars@);
        assert(sources@ == meeting_sources(calendars@));
        let mut selected = UidSet::new();
        let mut k: usize = 0;
        assert(selected@ =~= all_enabled(sources@.take(0), self@.enabled_uids));
        while k < sources.len()
            invariant
                k <= sources@.len(),
                selected.wf(),
                selected@ == all_enabled(sources@.take(k as int), self@.enabled_uids),
            decreases sources@.len() - k,
        {
            let ghost before = selected@;
            if self.is_calendar_enabled(&sources[k].uid) {
                selected.insert(sources[k].uid.clone());
            }
            proof {
                lemma_next_enabled(sources@, self@.enabled_uids, k as int);
            }
            k += 1;
        }
        assert(sources@.take(k as int) == sources@);
        self.calendars = sources;
        self.selected_calendars = selected;
        self.recompute_visible_events();
    }

    fn toggle_calendar(&mut self, uid: String)
        requires
            old(self).wf(),
        ensures
            final(self).wf(),
            final(self)@ == toggled(old(self)@, uid@),
    {
        if self.is_calendar_enabled(&uid) {
            if !self.selected_calendars.remove(&uid) {
                assert(self.selected_calendars@ =~= old(self).selected_calendars@);
                self.selected_calendars.insert(uid);
            }
            self.recompute_visible_events();
        }
    }
}

pub proof fn lemma_next_enabled(calendars: Seq<CalendarInfo>, enabled_uids: Seq<Seq<char>>, k: int)
    requires
        0 <= k < calendars.len(),
    ensures
        all_enabled(calendars.take(k + 1), enabled_uids) == if is_enabled(
            enabled_uids,
            calendars[k].uid@,
        ) {
            all_enabled(calendars.take(k), enabled_uids).insert(calendars[k].uid@)
        } else {
            all_enabled(calendars.take(k), enabled_uids)
        },
{
    let now = calendars.take(k + 1);
    let before = calendars.take(k);
    assert forall|uid: Seq<char>| #[trigger] lists(now, uid) <==> lists(before, uid) || uid
        == calendars[k].uid@ by {
        if lists(now, uid) {
            let i = choose|i: int| 0 <= i < now.len() && (#[trigger] now[i]).uid@ == uid;
            if i < k {
                assert(before[i].uid@ == uid);
            }
        }
        if lists(before, uid) {
            let i = choose|i: int| 0 <= i < before.len() && (#[trigger] before[i]).uid@ == uid;
            assert(now[i].uid@ == uid);
        }
        assert(now[k].uid@ == calendars[k].uid@);
    }
    if is_enabled(enabled_uids, calendars[k].uid@) {
        assert(all_enabled(now, enabled_uids) =~= all_enabled(before, enabled_uids).insert(
            calendars[k].uid@,
        ));
    } else {
        assert(all_enabled(now, enabled_uids) =~= all_enabled(before, enabled_uids));
    }
}

/// The name of the time zone: its abbreviation, such as "PDT", or, where the system has none, how
/// far the zone of `now` is off UTC.
pub open spec fn zone_label(abbrev: Seq<char>, now: LocalTime) -> Seq<char> {
    if abbrev.len() > 0 {
        abbrev
    } else {
        local_time::offset_label(now.offset_secs as int)
    }
}

/// The name of the time zone, given its abbreviation and the time.
pub fn timezone_at(abbrev: String, now: &LocalTime) -> (name: String)
    requires
        now.wf(),
    ensures
        name@ == zone_label(abbrev@, *now),
{
    match text::non_empty(abbrev) {
        Some(abbrev) => abbrev,
        None => local_time::zone_name(now),
    }
}

/// The name of the time zone, given its abbreviation: how far the zone is off UTC at the moment
/// where there is none.
pub fn timezone_label(abbrev: String) -> (name: String)
    ensures
        abbrev@.len() > 0 ==> name@ == abbrev@,
        exists|now: LocalTime|
            now.wf() && local_time::is_clock_reading(now) && name@ == #[trigger] zone_label(
                abbrev@,
                now,
            ),
{
    let now = local_time::now();
    let name = timezone_at(abbrev, &now);
    assert(name@ == zone_label(abbrev@, now));
    name
}

impl SchedulingApp {
    /// The message about the spans that are marked, with `intro` before it.
    pub fn message_text(&self, locale: &Locale, intro: &str) -> (text: String)
        requires
            self.wf(),
            locale.wf(),
        ensures
            text@ == scheduling::message(*locale, self.availability@, intro@),
    {
        assert forall|i: int| 0 <= i < self.availability@.len() implies (
        #[trigger] self.availability@[i]).0.wf() by {}
        scheduling::compose_availability(locale, self.availability.as_slice(), intro)
    }

    /// The message that closing the window sends.
    pub fn on_close_requested(&self) -> (msg: Option<Msg>)
        ensures
            msg == Some(Msg::Close),
    {
        Some(Msg::Close)
    }

    /// Does what a message asks for, and says what is left to do.
    pub fn update(&mut self, message: Msg, locale: &Locale, intro: &str) -> (effect: Effect)
        requires
            old(self).wf(),
            message.wf(old(self)@),
            locale.wf(),
        ensures
            final(self).wf(),
            follows(old(self)@, message, final(self)@),
            is_effect(old(self)@, message, *locale, intro@, effect),
    {
        match message {
            Msg::EventsLoaded(events) => {
                self.events = events;
                self.loading = false;
                self.recompute_visible_events();
            },
            Msg::CalendarsLoaded(calendars) => {
                self.load_calendars(&calendars);
            },
            Msg::ToggleCalendar(uid) => {
                self.toggle_calendar(uid);
            },
            Msg::SetDayStart(hour) => {
                self.day_start_hour = hour;
                if self.day_end_hour <= hour {
                    self.day_end_hour = if hour + 1 < 24 {
                        hour + 1
                    } else {
                        24
                    };
                }
            },
            Msg::SetDayEnd(hour) => {
                self.day_end_hour = hour;
                if self.day_start_hour >= hour {
                    self.day_start_hour = hour.saturating_sub(1);
                }
            },
            Msg::SetWeekends(enabled) => {
                self.include_weekends = enabled;
            },
            Msg::ToggleOptions => {
                self.show_options = !self.show_options;
                if self.show_options {
                    self.options_page = OptionsPage::Main;
                }
            },
            Msg::CloseOptions => {
                self.show_options = false;
            },
            Msg::OpenCalendarsPage => {
                self.options_page = OptionsPage::Calendars;
            },
            Msg::OptionsBack => {
                self.options_page = OptionsPage::Main;
            },
            Msg::PrevWeek => {
                self.week_offset = self.week_offset.saturating_sub(1);
            },
            Msg::NextWeek => {
                self.week_offset = if self.week_offset < MAX_WEEK_OFFSET {
                    self.week_offset + 1
                } else {
                    MAX_WEEK_OFFSET
                };
            },
            Msg::AddAvailability(start, end) => {
                let mut added: Vec<Span> = Vec::new();
                added.push((start, end));
                assert(added@ == seq![(start, end)]);
                self.mark(&added);
            },
            Msg::ResizeAvailability(i, start, end) => {
                self.resize(i, start, end);
            },
            Msg::RemoveAvailability(i) => {
                self.remove(i);
            },
            Msg::Copy => {
                let text = self.message_text(locale, intro);
                match text::non_empty(text) {
                    Some(text) => {
                        return Effect::WriteClipboard(text);
                    },
                    None => {},
                }
            },
            Msg::Clear => {
                self.availability.clear();
            },
            Msg::AutoPick => {
                self.auto_pick();
            },
            Msg::Close => {
                return Effect::Exit;
            },
        }
        Effect::Nothing
    }

    fn resize(&mut self, i: usize, start: LocalTime, end: LocalTime)
        requires
            old(self).wf(),
            start.wf(),
            end.wf(),
        ensures
            final(self).wf(),
            final(self)@ == step(old(self)@, Msg::ResizeAvailability(i, start, end)),
    {
        if i < self.availability.len() {
            let ghost before = self.availability@;
            self.availability.set(i, (start, end));
            proof {
                let spans = self.availability@;
                assert(spans == before.update(i as int, (start, end)));
                assert forall|k: int| 0 <= k < spans.len() implies (#[trigger] spans[k]).0.wf()
                    && spans[k].1.wf() by {
                    assert(before[k].0.wf());
                }
                scheduling::lemma_merged_wf(spans);
            }
            self.availability = scheduling::merge_spans(self.availability.as_slice());
        }
    }

    fn remove(&mut self, i: usize)
        requires
            old(self).wf(),
        ensures
            final(self).wf(),
            final(self)@ == step(old(self)@, Msg::RemoveAvailability(i)),
    {
        if i < self.availability.len() {
            let ghost before = self.availability@;
            self.availability.remove(i);
            assert forall|k: int| 0 <= k < self.availability@.len() implies (
            #[trigger] self.availability@[k]).0.wf() && self.availability@[k].1.wf() by {
                assert(before[if k < i { k } else { k + 1 }].0.wf());
            }
        }
    }
}

} // verus!
