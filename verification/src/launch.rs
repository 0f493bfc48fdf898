//! What the program does when it starts.
use vstd::prelude::*;

use crate::text;

verus! {

/// What the program was started for.
#[derive(Clone, Copy, Debug, PartialEq, Eq, Structural)]
pub enum Command {
    /// Join the next meeting.
    JoinNext,
    /// Have the applet that is running open its menu.
    OpenMenu,
    /// Open the scheduling helper.
    SchedulingHelper,
    /// Run the applet.
    Applet,
}

/// What the program was started for, given its arguments. Of several flags, the first in this
/// order counts.
pub open spec fn command(args: Seq<Seq<char>>) -> Command {
    if args.contains("--join-next"@) {
        Command::JoinNext
    } else if args.contains("--open-menu"@) {
        Command::OpenMenu
    } else if args.contains("--scheduling-helper"@) {
        Command::SchedulingHelper
    } else {
        Command::Applet
    }
}

fn has_flag(args: &Vec<String>, flag: &str) -> (found: bool)
    ensures
        found == text::texts(args@).contains(flag@),
{
    let wanted = flag.to_string();
    let ghost all = text::texts(args@);
    let mut i: usize = 0;
    while i < args.len()
        invariant
            i <= args@.len(),
            all == text::texts(args@),
            wanted@ == flag@,
            forall|k: int| 0 <= k < i ==> #[trigger] all[k] != wanted@,
        decreases args@.len() - i,
    {
        if args[i] == wanted {
            assert(all[i as int] == wanted@);
            return true;
        }
        i += 1;
    }
    false
}

/// What the program was started for.
pub fn command_of(args: &Vec<String>) -> (c: Command)
    ensures
        c == command(text::texts(args@)),
{
    if has_flag(args, "--join-next") {
        Command::JoinNext
    } else if has_flag(args, "--open-menu") {
        Command::OpenMenu
    } else if has_flag(args, "--scheduling-helper") {
        Command::SchedulingHelper
    } else {
        Command::Applet
    }
}

/// The exit status of something that succeeded or failed.
pub fn exit_status(success: bool) -> (status: i32)
    ensures
        status == (if success {
            0int
        } else {
            1
        }),
{
    if success {
        0
    } else {
        1
    }
}

/// How far joining the next meeting has come.
#[derive(Debug)]
pub enum JoinEvent {
    /// The meetings to come were fetched; says how many there are.
    Fetched(usize),
    /// The first of them was searched for a link.
    Searched(Option<String>),
    /// The link was opened, or could not be.
    Opened(bool),
}

/// What to do next to join the meeting.
#[derive(Debug)]
pub enum JoinAction {
    /// Search the first meeting for a link.
    Search,
    /// Open a link.
    Open(String),
    /// End the program.
    Exit(i32),
}

/// What to do next to join the meeting: without a meeting, or without a link in it, the program
/// fails; with one, it succeeds if the link can be opened.
pub open spec fn join_action(event: JoinEvent) -> JoinAction {
    match event {
        JoinEvent::Fetched(n) => if n > 0 {
            JoinAction::Search
        } else {
            JoinAction::Exit(1)
        },
        JoinEvent::Searched(Some(url)) => JoinAction::Open(url),
        JoinEvent::Searched(None) => JoinAction::Exit(1),
        JoinEvent::Opened(success) => JoinAction::Exit(if success {
            0
        } else {
            1
        }),
    }
}

/// What to do next to join the next meeting.
pub fn join_next_meeting(event: JoinEvent) -> (action: JoinAction)
    ensures
        action == join_action(event),
{
    match event {
        JoinEvent::Fetched(n) => if n > 0 {
            JoinAction::Search
        } else {
            JoinAction::Exit(1)
        },
        JoinEvent::Searched(Some(url)) => JoinAction::Open(url),
        JoinEvent::Searched(None) => JoinAction::Exit(1),
        JoinEvent::Opened(success) => JoinAction::Exit(exit_status(success)),
    }
}

/// Whether one of the arguments is `flag`.
pub open spec fn is_given(args: Seq<Seq<char>>, flag: Seq<char>) -> bool {
    exists|i: int| 0 <= i < args.len() && #[trigger] args[i] == flag
}

/// The flags decide what the program does, wherever they stand: joining the next meeting comes
/// first, then opening the menu, then the scheduling helper; without a flag the applet runs.
pub proof fn the_flags_decide(args: Seq<Seq<char>>)
    ensures
        command(args) == Command::JoinNext <==> is_given(args, "--join-next"@),
        command(args) == Command::OpenMenu <==> is_given(args, "--open-menu"@) && !is_given(
            args,
            "--join-next"@,
        ),
        command(args) == Command::SchedulingHelper <==> is_given(args, "--scheduling-helper"@)
            && !is_given(args, "--open-menu"@) && !is_given(args, "--join-next"@),
        command(args) == Command::Applet <==> !is_given(args, "--join-next"@) && !is_given(
            args,
            "--open-menu"@,
        ) && !is_given(args, "--scheduling-helper"@),
{
    assert(args.contains("--join-next"@) <==> is_given(args, "--join-next"@));
    assert(args.contains("--open-menu"@) <==> is_given(args, "--open-menu"@));
    assert(args.contains("--scheduling-helper"@) <==> is_given(args, "--scheduling-helper"@));
}

/// Only a link that could be opened makes joining a meeting succeed, and only one that was found is
/// opened; a meeting is searched wherever there is one.
pub proof fn joining_succeeds_with_an_opened_link_only(event: JoinEvent)
    ensures
        join_action(event) matches JoinAction::Exit(status) ==> (status == 0 <==> (event matches
            JoinEvent::Opened(success) && success)),
        join_action(event) matches JoinAction::Exit(status) ==> status == 0 || status == 1,
        join_action(event) matches JoinAction::Open(url) ==> event == JoinEvent::Searched(
            Some(url),
        ),
        join_action(event) is Open <==> (event matches JoinEvent::Searched(link) && link is Some),
        join_action(event) is Search <==> (event matches JoinEvent::Fetched(n) && n > 0),
{
}

/// The size of the scheduling helper's window, in pixels.
#[derive(Clone, Copy, Debug, PartialEq, Eq, Structural)]
pub struct WindowPlan {
    pub width: u16,
    pub height: u16,
    pub min_width: u16,
    pub min_height: u16,
    /// The largest width and height; `None` where there is no limit.
    pub max_width: Option<u16>,
    pub max_height: Option<u16>,
    pub resizable: bool,
}

impl WindowPlan {
    /// Whether the window can have one size only.
    pub open spec fn is_fixed(self) -> bool {
        &&& !self.resizable
        &&& self.min_width == self.width && self.max_width == Some(self.width)
        &&& self.min_height == self.height && self.max_height == Some(self.height)
    }
}

/// The size of the window: one that can be resized may be tiled; one that cannot floats as a
/// dialog, which its fixed size tells the compositor.
pub fn window_plan(resizable: bool) -> (plan: WindowPlan)
    ensures
        resizable ==> plan == (WindowPlan {
            width: 880,
            height: 660,
            min_width: 640,
            min_height: 460,
            max_width: None,
            max_height: None,
            resizable: true,
        }),
        !resizable ==> plan.width == 980 && plan.height == 660 && plan.is_fixed(),
{
    if resizable {
        WindowPlan {
            width: 880,
            height: 660,
            min_width: 640,
            min_height: 460,
            max_width: None,
            max_height: None,
            resizable: true,
        }
    } else {
        WindowPlan {
            width: 980,
            height: 660,
            min_width: 980,
            min_height: 660,
            max_width: Some(980),
            max_height: Some(660),
            resizable: false,
        }
    }
}

} // verus!
