use shortcuts::error::FetchError;
use shortcuts::fetch::Action;
use shortcuts::fetch::Event;
use shortcuts::fetch::KeybindFetch;
use shortcuts::fetch::KeybindStep;
use shortcuts::fetch::StylesheetFetch;
use shortcuts::fetch::StylesheetStep;
use shortcuts::paths::Location;

type Bundles = Vec<(String, Vec<(String, String)>)>;

fn pair(action: &str, bind: &str) -> (String, String) {
    (action.to_string(), bind.to_string())
}

fn file(name: &str, content: &str) -> Event {
    Event::EntryContent {
        name: Some(name.to_string()),
        path: format!("\"/home/u/.config/shortcuts/keybinds/{}\"", name),
        content: content.to_string(),
    }
}

/// Feeds `events` to a new request; gives the actions it asked for, in
/// order, and its result if it ended.
fn keybinds(events: Vec<Event>) -> (Vec<Action>, Option<Result<Bundles, FetchError>>) {
    let (mut fetch, first) = KeybindFetch::start();
    let mut actions = vec![first];
    for event in events {
        match fetch.advance(event) {
            KeybindStep::Continue(next, action) => {
                fetch = next;
                actions.push(action);
            }
            KeybindStep::Finished(result) => return (actions, Some(result)),
        }
    }
    (actions, None)
}

fn stylesheet(events: Vec<Event>) -> (Vec<Action>, Option<Result<Option<String>, FetchError>>) {
    let (mut fetch, first) = StylesheetFetch::start();
    let mut actions = vec![first];
    for event in events {
        match fetch.advance(event) {
            StylesheetStep::Continue(next, action) => {
                fetch = next;
                actions.push(action);
            }
            StylesheetStep::Finished(result) => return (actions, Some(result)),
        }
    }
    (actions, None)
}

#[test]
fn first_run_creates_the_directory_and_finds_nothing() {
    let (actions, result) = keybinds(vec![Event::Absent, Event::Created, Event::Absent]);
    assert_eq!(
        actions,
        vec![
            Action::Probe(Location::ShortcutsDir),
            Action::CreateDir,
            Action::Probe(Location::WindowManagerConfig),
        ]
    );
    assert_eq!(result, Some(Ok(Vec::new())));
}

#[test]
fn one_shortcut_file_and_no_window_manager() {
    let (actions, result) = keybinds(vec![
        Event::Present,
        Event::Listed,
        Event::RegularFile,
        file("a.txt", "open = super+o\nclose = super+c\n"),
        Event::EndOfEntries,
        Event::Absent,
    ]);
    assert_eq!(
        actions,
        vec![
            Action::Probe(Location::ShortcutsDir),
            Action::ListDir,
            Action::NextEntry,
            Action::ReadEntry,
            Action::NextEntry,
            Action::Probe(Location::WindowManagerConfig),
        ]
    );
    assert_eq!(
        result,
        Some(Ok(vec![(
            "a.txt".to_string(),
            vec![pair("open ", " super+o"), pair("close ", " super+c")]
        )]))
    );
}

#[test]
fn window_manager_configuration_alone() {
    let config = "# a comment\nbind = $mainMod, T, exec, kitty\nbindm = $mainMod SHIFT, mouse:272, movewindow\nbind = broken-line-with-no-commas\nother = ignored\n";
    let (actions, result) = keybinds(vec![
        Event::Present,
        Event::Listed,
        Event::EndOfEntries,
        Event::Present,
        Event::Content(config.to_string()),
    ]);
    assert_eq!(actions.last(), Some(&Action::Read(Location::WindowManagerConfig)));
    assert_eq!(
        result,
        Some(Ok(vec![(
            "hyprland.conf".to_string(),
            vec![pair("exec,kitty", "mainMod+T"), pair("movewindow", "mainMod+SHIFT+mouse:272")]
        )]))
    );
}

#[test]
fn absent_directory_leaves_only_the_window_manager_bundle() {
    let (_, result) = keybinds(vec![
        Event::Absent,
        Event::Created,
        Event::Present,
        Event::Content("bind = SUPER, Q, killactive\n".to_string()),
    ]);
    assert_eq!(
        result,
        Some(Ok(vec![("hyprland.conf".to_string(), vec![pair("killactive", "SUPER+Q")])]))
    );
}

#[test]
fn bundles_come_in_enumeration_order_with_the_window_manager_last() {
    let (_, result) = keybinds(vec![
        Event::Present,
        Event::Listed,
        Event::RegularFile,
        file("z.conf", "z=1"),
        Event::OtherEntry,
        Event::RegularFile,
        file("a.conf", "a=1\na=2"),
        Event::RegularFile,
        file("empty", ""),
        Event::EndOfEntries,
        Event::Present,
        Event::Content("bind = A, b, c".to_string()),
    ]);
    assert_eq!(
        result,
        Some(Ok(vec![
            ("z.conf".to_string(), vec![pair("z", "1")]),
            ("a.conf".to_string(), vec![pair("a", "1"), pair("a", "2")]),
            ("empty".to_string(), vec![]),
            ("hyprland.conf".to_string(), vec![pair("c", "A+b")]),
        ]))
    );
}

#[test]
fn a_user_file_named_like_the_configuration_is_kept_beside_it() {
    let (_, result) = keybinds(vec![
        Event::Present,
        Event::Listed,
        Event::RegularFile,
        file("hyprland.conf", "a=b"),
        Event::EndOfEntries,
        Event::Present,
        Event::Content("bind = A, b, c".to_string()),
    ]);
    assert_eq!(
        result,
        Some(Ok(vec![
            ("hyprland.conf".to_string(), vec![pair("a", "b")]),
            ("hyprland.conf".to_string(), vec![pair("c", "A+b")]),
        ]))
    );
}

#[test]
fn entries_that_are_no_regular_files_are_passed_over() {
    let (actions, result) = keybinds(vec![
        Event::Present,
        Event::Listed,
        Event::OtherEntry,
        Event::OtherEntry,
        Event::EndOfEntries,
        Event::Absent,
    ]);
    assert_eq!(actions[2..5], [Action::NextEntry, Action::NextEntry, Action::NextEntry]);
    assert_eq!(result, Some(Ok(Vec::new())));
}

#[test]
fn keybinds_when_the_directory_cannot_be_created() {
    let (_, result) = keybinds(vec![
        Event::Absent,
        Event::CreateFailed("Permission denied (os error 13)".to_string()),
    ]);
    assert_eq!(
        result,
        Some(Err(FetchError::MkdirFailed("Permission denied (os error 13)".to_string())))
    );
}

#[test]
fn keybinds_when_the_directory_cannot_be_enumerated() {
    let (_, result) = keybinds(vec![
        Event::Present,
        Event::ListFailed("Not a directory (os error 20)".to_string()),
    ]);
    assert_eq!(
        result,
        Some(Err(FetchError::EnumFailed("Not a directory (os error 20)".to_string())))
    );
}

#[test]
fn keybinds_when_the_enumeration_breaks_off() {
    let (_, result) = keybinds(vec![
        Event::Present,
        Event::Listed,
        Event::RegularFile,
        file("a", "a=b"),
        Event::EntryFailed("Input/output error (os error 5)".to_string()),
    ]);
    assert_eq!(
        result,
        Some(Err(FetchError::EnumFailed("Input/output error (os error 5)".to_string())))
    );
}

#[test]
fn keybinds_when_a_file_cannot_be_read() {
    let (_, result) = keybinds(vec![
        Event::Present,
        Event::Listed,
        Event::RegularFile,
        file("a", "a=b"),
        Event::RegularFile,
        Event::ReadFailed("stream did not contain valid UTF-8".to_string()),
    ]);
    assert_eq!(
        result,
        Some(Err(FetchError::ReadFailed("stream did not contain valid UTF-8".to_string())))
    );
}

#[test]
fn keybinds_when_the_configuration_cannot_be_read() {
    let (_, result) = keybinds(vec![
        Event::Present,
        Event::Listed,
        Event::EndOfEntries,
        Event::Present,
        Event::ReadFailed("Is a directory (os error 21)".to_string()),
    ]);
    assert_eq!(
        result,
        Some(Err(FetchError::ReadFailed("Is a directory (os error 21)".to_string())))
    );
}

#[test]
fn keybinds_when_a_file_name_is_no_text() {
    let (_, result) = keybinds(vec![
        Event::Present,
        Event::Listed,
        Event::RegularFile,
        Event::EntryContent {
            name: None,
            path: "\"/home/u/.config/shortcuts/keybinds/\\xFF\"".to_string(),
            content: "a=b".to_string(),
        },
    ]);
    assert_eq!(
        result,
        Some(Err(FetchError::BadFilename(
            "\"/home/u/.config/shortcuts/keybinds/\\xFF\"".to_string()
        )))
    );
}

#[test]
fn keybinds_when_a_file_name_is_empty() {
    let (_, result) = keybinds(vec![
        Event::Present,
        Event::Listed,
        Event::RegularFile,
        Event::EntryContent { name: Some(String::new()), path: "p".to_string(), content: "a=b".to_string() },
    ]);
    assert_eq!(result, Some(Err(FetchError::BadFilename("p".to_string()))));
}

#[test]
fn keybinds_ask_again_after_an_event_that_is_no_answer() {
    let (actions, result) = keybinds(vec![
        Event::Created,
        Event::Content("x".to_string()),
        Event::EndOfEntries,
        Event::Absent,
        Event::Present,
        Event::Created,
        Event::RegularFile,
        Event::Absent,
    ]);
    assert_eq!(
        actions,
        vec![
            Action::Probe(Location::ShortcutsDir),
            Action::Probe(Location::ShortcutsDir),
            Action::Probe(Location::ShortcutsDir),
            Action::Probe(Location::ShortcutsDir),
            Action::CreateDir,
            Action::CreateDir,
            Action::Probe(Location::WindowManagerConfig),
            Action::Probe(Location::WindowManagerConfig),
        ]
    );
    assert_eq!(result, Some(Ok(Vec::new())));
}

#[test]
fn keybinds_unfinished_request_has_no_result() {
    let (actions, result) = keybinds(vec![Event::Present, Event::Listed]);
    assert_eq!(actions.last(), Some(&Action::NextEntry));
    assert_eq!(result, None);
}

#[test]
fn stylesheet_absent_gives_none() {
    let (actions, result) = stylesheet(vec![Event::Absent]);
    assert_eq!(actions, vec![Action::Probe(Location::Stylesheet)]);
    assert_eq!(result, Some(Ok(None)));
}

#[test]
fn stylesheet_present_gives_its_text() {
    let (actions, result) =
        stylesheet(vec![Event::Present, Event::Content("body{}".to_string())]);
    assert_eq!(
        actions,
        vec![
            Action::Probe(Location::Stylesheet),
            Action::Read(Location::Stylesheet),
        ]
    );
    assert_eq!(result, Some(Ok(Some("body{}".to_string()))));
}

#[test]
fn stylesheet_that_is_a_directory_fails_to_read() {
    let (_, result) = stylesheet(vec![
        Event::Present,
        Event::ReadFailed("Is a directory (os error 21)".to_string()),
    ]);
    assert_eq!(
        result,
        Some(Err(FetchError::ReadFailed("Is a directory (os error 21)".to_string())))
    );
}

#[test]
fn stylesheet_asks_again_after_an_event_that_is_no_answer() {
    let (actions, result) = stylesheet(vec![
        Event::Content("x".to_string()),
        Event::Created,
        Event::Present,
        Event::Present,
        Event::Absent,
        Event::Content(String::new()),
    ]);
    assert_eq!(
        actions,
        vec![
            Action::Probe(Location::Stylesheet),
            Action::Probe(Location::Stylesheet),
            Action::Probe(Location::Stylesheet),
            Action::Read(Location::Stylesheet),
            Action::Read(Location::Stylesheet),
            Action::Read(Location::Stylesheet),
        ]
    );
    assert_eq!(result, Some(Ok(Some(String::new()))));
}

#[test]
fn error_messages() {
    assert_eq!(FetchError::NoHome.message(), "Could not find home directory");
    assert_eq!(FetchError::MkdirFailed("m".to_string()).message(), "m");
    assert_eq!(FetchError::EnumFailed("e".to_string()).message(), "e");
    assert_eq!(FetchError::ReadFailed("r".to_string()).message(), "r");
    assert_eq!(
        FetchError::BadFilename("\"/tmp/x\"".to_string()).message(),
        "Failed to get file name for \"/tmp/x\""
    );
}

