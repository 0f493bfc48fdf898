use next_meeting::launch::{
    command_of, exit_status, join_next_meeting, window_plan, Command, JoinAction, JoinEvent,
};

fn args(list: &[&str]) -> Vec<String> {
    list.iter().map(|a| a.to_string()).collect()
}

#[test]
fn commands() {
    assert_eq!(command_of(&args(&["app"])), Command::Applet);
    assert_eq!(command_of(&args(&[])), Command::Applet);
    assert_eq!(command_of(&args(&["app", "--join-next"])), Command::JoinNext);
    assert_eq!(command_of(&args(&["app", "--open-menu"])), Command::OpenMenu);
    assert_eq!(command_of(&args(&["app", "--scheduling-helper"])), Command::SchedulingHelper);
    assert_eq!(
        command_of(&args(&["app", "--scheduling-helper", "--open-menu", "--join-next"])),
        Command::JoinNext
    );
    assert_eq!(
        command_of(&args(&["app", "--scheduling-helper", "--open-menu"])),
        Command::OpenMenu
    );
    assert_eq!(command_of(&args(&["app", "--join-next-x"])), Command::Applet);
}

#[test]
fn joining_the_next_meeting() {
    assert!(matches!(join_next_meeting(JoinEvent::Fetched(0)), JoinAction::Exit(1)));
    assert!(matches!(join_next_meeting(JoinEvent::Fetched(1)), JoinAction::Search));
    assert!(matches!(join_next_meeting(JoinEvent::Searched(None)), JoinAction::Exit(1)));
    match join_next_meeting(JoinEvent::Searched(Some("https://meet".to_string()))) {
        JoinAction::Open(url) => assert_eq!(url, "https://meet"),
        other => panic!("{other:?}"),
    }
    assert!(matches!(join_next_meeting(JoinEvent::Opened(true)), JoinAction::Exit(0)));
    assert!(matches!(join_next_meeting(JoinEvent::Opened(false)), JoinAction::Exit(1)));
    assert_eq!((exit_status(true), exit_status(false)), (0, 1));
}

#[test]
fn a_window_floats_or_can_be_resized() {
    let floating = window_plan(false);
    assert_eq!((floating.width, floating.height), (980, 660));
    assert_eq!((floating.min_width, floating.min_height), (980, 660));
    assert_eq!((floating.max_width, floating.max_height), (Some(980), Some(660)));
    assert!(!floating.resizable);
    let free = window_plan(true);
    assert_eq!((free.width, free.height), (880, 660));
    assert_eq!((free.min_width, free.min_height), (640, 460));
    assert_eq!((free.max_width, free.max_height), (None, None));
    assert!(free.resizable);
}
