//! What the scheduling helper's window shows, and what its controls send.
use vstd::prelude::*;

use crate::calendar::CalendarInfo;
use crate::date::Date;
use crate::gesture::Reaction;
use crate::local_time;
use crate::local_time::LocalTime;
use crate::locale;
use crate::locale::Locale;
use crate::scene;
use crate::scheduling;
use crate::scheduling_app;
use crate::scheduling_app::{AppView, Msg, OptionsPage, SchedulingApp, MAX_WEEK_OFFSET};
use crate::text;

verus! {

/// What the window shows beside the grid.
#[derive(Debug)]
pub struct Pane {
    /// The first and the last day that are shown.
    pub week_label: String,
    /// Whether there is an earlier week to page to.
    pub can_go_back: bool,
    /// Whether there is a later week to page to.
    pub can_go_forward: bool,
    /// The page of the options that is open.
    pub options: Option<OptionsPage>,
    /// Whether a note that the events are being fetched stands in for the grid.
    pub loading: bool,
    /// The message; a hint stands in for it where it is empty.
    pub message: String,
    /// Whether the message can be copied.
    pub can_copy: bool,
}

/// How many calendars are selected.
#[derive(Clone, Copy, Debug, PartialEq, Eq, Structural)]
pub enum Summary {
    All,
    Counted { selected: usize, total: usize },
}

/// The main page of the options.
#[derive(Debug)]
pub struct MainPage {
    /// The hours at which the day can start.
    pub start_labels: Vec<String>,
    /// The one of them at which it starts.
    pub start_index: usize,
    /// The hours at which the day can end.
    pub end_labels: Vec<String>,
    /// The one of them at which it ends.
    pub end_index: usize,
    pub include_weekends: bool,
    pub summary: Summary,
}

/// A row of the page of calendars.
#[derive(Clone, Copy, Debug, PartialEq, Eq, Structural)]
pub struct CalendarRow {
    /// Whether the calendar can be toggled; if not, it is greyed out.
    pub enabled: bool,
    /// Whether its toggle is on.
    pub checked: bool,
}

/// The first and the last of the days, in short.
pub open spec fn week_label(locale: Locale, days: Seq<Date>) -> Seq<char> {
    if days.len() == 0 {
        Seq::empty()
    } else {
        locale.short_label(days.first().n()) + seq![' ', '\u{2013}', ' '] + locale.short_label(
            days.last().n(),
        )
    }
}

/// The calendars of the list that are enabled.
pub open spec fn enabled_calendars(v: AppView) -> Seq<CalendarInfo> {
    v.calendars.filter(|c: CalendarInfo| scheduling_app::is_enabled(v.enabled_uids, c.uid@))
}

/// How many calendars are selected: all, if there are calendars and as many are selected as are
/// enabled.
pub open spec fn summary(v: AppView) -> Summary {
    if v.calendars.len() > 0 && v.selected_calendars.len() == enabled_calendars(v).len() {
        Summary::All
    } else {
        Summary::Counted {
            selected: v.selected_calendars.len() as usize,
            total: v.calendars.len() as usize,
        }
    }
}

/// The row of a calendar.
pub open spec fn calendar_row(v: AppView, calendar: CalendarInfo) -> CalendarRow {
    let enabled = scheduling_app::is_enabled(v.enabled_uids, calendar.uid@);
    CalendarRow {
        enabled,
        checked: enabled && v.selected_calendars.contains(calendar.uid@),
    }
}

fn label_week(locale: &Locale, days: &Vec<Date>) -> (label: String)
    requires
        locale.wf(),
        forall|i: int| 0 <= i < days@.len() ==> (#[trigger] days@[i]).wf(),
    ensures
        label@ == week_label(*locale, days@),
{
    if days.len() == 0 {
        let label = String::new();
        assert(label@ == week_label(*locale, days@));
        return label;
    }
    let mut label = locale::short_date(locale, days[0]);
    proof {
        reveal_strlit(" \u{2013} ");
    }
    label.append(" \u{2013} ");
    label.append(locale::short_date(locale, days[days.len() - 1]).as_str());
    assert(label@ == week_label(*locale, days@));
    label
}

impl SchedulingApp {
    /// What the window shows beside the grid of `days`.
    pub fn pane(&self, locale: &Locale, days: &Vec<Date>, intro: &str) -> (pane: Pane)
        requires
            self.wf(),
            locale.wf(),
            forall|i: int| 0 <= i < days@.len() ==> (#[trigger] days@[i]).wf(),
        ensures
            pane.week_label@ == week_label(*locale, days@),
            pane.can_go_back == (self.week_offset > 0),
            pane.can_go_forward == (self.week_offset < MAX_WEEK_OFFSET),
            pane.options == (if self.show_options {
                Some(self.options_page)
            } else {
                None
            }),
            pane.loading == self.loading,
            pane.message@ == scheduling::message(*locale, self.availability@, intro@),
            pane.can_copy == (pane.message@.len() > 0),
    {
        let message = self.message_text(locale, intro);
        let can_copy = message.as_str().unicode_len() > 0;
        Pane {
            week_label: label_week(locale, days),
            can_go_back: self.week_offset > 0,
            can_go_forward: self.week_offset < MAX_WEEK_OFFSET,
            options: if self.show_options {
                Some(self.options_page)
            } else {
                None
            },
            loading: self.loading,
            message,
            can_copy,
        }
    }

    /// How many calendars are selected.
    pub fn calendar_summary(&self) -> (s: Summary)
        requires
            self.wf(),
        ensures
            s == summary(self@),
    {
        let total = self.calendars.len();
        let mut enabled_count: usize = 0;
        let ghost keep = |c: CalendarInfo| scheduling_app::is_enabled(
            self@.enabled_uids,
            c.uid@,
        );
        let mut i: usize = 0;
        proof {
            reveal(Seq::filter);
        }
        while i < self.calendars.len()
            invariant
                i <= self.calendars@.len(),
                enabled_count <= i,
                keep == |c: CalendarInfo| scheduling_app::is_enabled(
                    self@.enabled_uids,
                    c.uid@,
                ),
                enabled_count == self.calendars@.take(i as int).filter(keep).len(),
            decreases self.calendars@.len() - i,
        {
            proof {
                reveal(Seq::filter);
                assert(self.calendars@.take(i + 1).drop_last() == self.calendars@.take(i as int));
            }
            if self.is_calendar_enabled(&self.calendars[i].uid) {
                enabled_count += 1;
            }
            i += 1;
        }
        assert(self.calendars@.take(i as int) == self.calendars@);
        let selected = self.selected_calendars.len();
        if total > 0 && selected == enabled_count {
            Summary::All
        } else {
            Summary::Counted { selected, total }
        }
    }

    /// The main page of the options.
    pub fn options_main_page(&self, locale: &Locale) -> (page: MainPage)
        requires
            self.wf(),
        ensures
            text::texts(page.start_labels@) == scene::hour_labels(locale.clock_24h(), 0, 24),
            page.start_index == self.day_start_hour,
            text::texts(page.end_labels@) == scene::hour_labels(locale.clock_24h(), 1, 25),
            page.end_index == (if self.day_end_hour > 0 {
                self.day_end_hour - 1
            } else {
                0
            }),
            page.include_weekends == self.include_weekends,
            page.summary == summary(self@),
    {
        MainPage {
            start_labels: scene::label_hours(locale, 0, 24),
            start_index: self.day_start_hour as usize,
            end_labels: scene::label_hours(locale, 1, 25),
            end_index: self.day_end_hour.saturating_sub(1) as usize,
            include_weekends: self.include_weekends,
            summary: self.calendar_summary(),
        }
    }

    /// The rows of the page of calendars, one for each calendar.
    pub fn options_calendars_page(&self) -> (rows: Vec<CalendarRow>)
        requires
            self.wf(),
        ensures
            rows@.len() == self.calendars@.len(),
            forall|i: int|
                0 <= i < rows@.len() ==> #[trigger] rows@[i] == calendar_row(
                    self@,
                    self.calendars@[i],
                ),
    {
        let mut rows: Vec<CalendarRow> = Vec::new();
        let mut i: usize = 0;
        while i < self.calendars.len()
            invariant
                i <= self.calendars@.len(),
                rows@.len() == i,
                forall|k: int|
                    0 <= k < i ==> #[trigger] rows@[k] == calendar_row(self@, self.calendars@[k]),
            decreases self.calendars@.len() - i,
        {
            let uid = &self.calendars[i].uid;
            let enabled = self.is_calendar_enabled(uid);
            let checked = self.selected_calendars.contains(uid);
            rows.push(CalendarRow { enabled, checked: enabled && checked });
            i += 1;
        }
        rows
    }
}

/// The message that picking entry `i` of the hours at which the day can start sends.
pub fn pick_day_start(i: usize) -> (msg: Msg)
    ensures
        msg == Msg::SetDayStart(if i <= u32::MAX {
            i as u32
        } else {
            9
        }),
{
    if i <= u32::MAX as usize {
        Msg::SetDayStart(i as u32)
    } else {
        Msg::SetDayStart(9)
    }
}

/// The message that picking entry `i` of the hours at which the day can end sends.
pub fn pick_day_end(i: usize) -> (msg: Msg)
    requires
        i != u32::MAX,
    ensures
        msg == Msg::SetDayEnd(if i < u32::MAX {
            (i + 1) as u32
        } else {
            17
        }),
{
    if i < u32::MAX as usize {
        Msg::SetDayEnd(i as u32 + 1)
    } else {
        Msg::SetDayEnd(17)
    }
}

/// The message that a gesture on the grid sends, if it sends one. Where it is about the bounds of a
/// span, `start` and `end` are the times at its ends.
pub open spec fn message_of(reaction: Reaction, start: LocalTime, end: LocalTime) -> Option<Msg> {
    match reaction {
        Reaction::Remove(i) => Some(Msg::RemoveAvailability(i)),
        Reaction::Add(_) => Some(Msg::AddAvailability(start, end)),
        Reaction::Resize(i, _) => Some(Msg::ResizeAvailability(i, start, end)),
        Reaction::Ignore | Reaction::Redraw | Reaction::Capture => None,
    }
}

/// The message that a gesture on the grid sends, if it sends one, given the times at the ends of
/// the span that it is about.
pub fn message_at(reaction: Reaction, start: LocalTime, end: LocalTime) -> (msg: Option<Msg>)
    ensures
        msg == message_of(reaction, start, end),
{
    match reaction {
        Reaction::Remove(i) => Some(Msg::RemoveAvailability(i)),
        Reaction::Add(_) => Some(Msg::AddAvailability(start, end)),
        Reaction::Resize(i, _) => Some(Msg::ResizeAvailability(i, start, end)),
        Reaction::Ignore | Reaction::Redraw | Reaction::Capture => None,
    }
}

/// Whether `start` and `end` stand for the ends of the span that the gesture is about, if it is
/// about the bounds of one.
pub open spec fn are_ends(reaction: Reaction, start: LocalTime, end: LocalTime, now: LocalTime) -> bool {
    match reaction {
        Reaction::Add(slot) | Reaction::Resize(_, slot) => {
            &&& local_time::stands_for(start, slot.date, slot.from as int, now)
            &&& local_time::stands_for(end, slot.date, slot.to as int, now)
        },
        _ => true,
    }
}

/// Whether `msg` is a message that the gesture can send at the time `now`, wherever the machine
/// stands.
pub open spec fn may_send(reaction: Reaction, now: LocalTime, msg: Option<Msg>) -> bool {
    exists|start: LocalTime, end: LocalTime|
        start.wf() && end.wf() && are_ends(reaction, start, end, now) && msg
            == #[trigger] message_of(reaction, start, end)
}

/// The message that a gesture on the grid sends, if it sends one. The times in it are those at
/// which the machine's clock shows the ends of the span, or `now` where it skips them.
pub fn gesture_message(reaction: Reaction, now: LocalTime) -> (msg: Option<Msg>)
    requires
        now.wf(),
        reaction matches Reaction::Add(slot) ==> slot.date.wf(),
        reaction matches Reaction::Resize(_, slot) ==> slot.date.wf(),
    ensures
        may_send(reaction, now, msg),
{
    let (start, end) = match reaction {
        Reaction::Add(slot) | Reaction::Resize(_, slot) => (
            local_time::local_dt(slot.date, slot.from, now),
            local_time::local_dt(slot.date, slot.to, now),
        ),
        Reaction::Remove(_) | Reaction::Ignore | Reaction::Redraw | Reaction::Capture => {
            // No time goes into the message.
            (now, now)
        },
    };
    let msg = message_at(reaction, start, end);
    assert(are_ends(reaction, start, end, now) && msg == message_of(reaction, start, end));
    msg
}

} // verus!
