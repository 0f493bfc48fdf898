//! Calendars and the events in them, as far as the helper looks at them.
use vstd::prelude::*;

use crate::local_time::LocalTime;

verus! {

/// An event that takes up time in a calendar.
#[derive(Debug)]
pub struct CalendarEventBlock {
    /// The calendar that the event is in.
    pub calendar_uid: String,
    pub title: String,
    /// The calendar's color, such as "#3584e4".
    pub color: Option<String>,
    pub start: LocalTime,
    pub end: LocalTime,
}

/// A calendar.
#[derive(Debug)]
pub struct CalendarInfo {
    pub uid: String,
    pub display_name: String,
    /// The calendar's color, such as "#3584e4".
    pub color: Option<String>,
    /// Whether the calendar holds meetings, rather than birthdays, holidays and the like.
    pub meeting_source: bool,
}

impl CalendarEventBlock {
    /// Whether the event starts and ends on days that a date can name.
    pub open spec fn wf(self) -> bool {
        self.start.wf() && self.end.wf()
    }
}

impl Clone for CalendarEventBlock {
    fn clone(&self) -> (c: Self)
        ensures
            c == *self,
    {
        CalendarEventBlock {
            calendar_uid: self.calendar_uid.clone(),
            title: self.title.clone(),
            color: match &self.color {
                Some(color) => Some(color.clone()),
                None => None,
            },
            start: self.start,
            end: self.end,
        }
    }
}

impl Clone for CalendarInfo {
    fn clone(&self) -> (c: Self)
        ensures
            c == *self,
    {
        CalendarInfo {
            uid: self.uid.clone(),
            display_name: self.display_name.clone(),
            color: match &self.color {
                Some(color) => Some(color.clone()),
                None => None,
            },
            meeting_source: self.meeting_source,
        }
    }
}

impl CalendarInfo {
    /// Whether the calendar holds meetings.
    pub fn is_meeting_source(&self) -> (b: bool)
        ensures
            b == self.meeting_source,
    {
        self.meeting_source
    }
}

/// Whether each event is well-formed.
pub open spec fn events_wf(events: Seq<CalendarEventBlock>) -> bool {
    forall|i: int| 0 <= i < events.len() ==> (#[trigger] events[i]).wf()
}

} // verus!
