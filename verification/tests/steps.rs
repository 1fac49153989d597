use niflveil::record::MinimizedWindow;
use niflveil::registry::Registry;
use niflveil::steps::{
    minimize_step, restore_step, MinimizeAction, MinimizeEvent, MinimizeState, RestoreAction,
    RestoreEvent, RestoreState,
};
use niflveil::workflow::{minimize, restore, ActiveWindow};

fn firefox() -> ActiveWindow {
    ActiveWindow {
        address: "0x1".to_string(),
        class: "firefox".to_string(),
        title: "Example".to_string(),
        geometry: None,
    }
}

fn firefox_record(preview: Option<&str>) -> MinimizedWindow {
    MinimizedWindow {
        address: "0x1".to_string(),
        display_title: " firefox - Example [1x0]".to_string(),
        class: "firefox".to_string(),
        original_title: "Example".to_string(),
        preview_path: preview.map(|p| p.to_string()),
        icon: String::new(),
    }
}

#[test]
fn minimize_asks_for_the_active_window_first() {
    assert_eq!(
        minimize_step(MinimizeState::Start, MinimizeEvent::Begin),
        (MinimizeState::Asked, MinimizeAction::AskActiveWindow)
    );
}

#[test]
fn minimize_without_geometry_hides_at_once() {
    let answer = "{\"address\": \"0x1\", \"class\": \"firefox\", \"title\": \"Example\"}";
    assert_eq!(
        minimize_step(MinimizeState::Asked, MinimizeEvent::Answered(Some(answer.to_string()))),
        (
            MinimizeState::Hiding(firefox_record(None)),
            MinimizeAction::Hide { target: "special:minimum,address:0x1".to_string() }
        )
    );
}

#[test]
fn minimize_with_geometry_captures_before_it_hides() {
    let answer = "{\"address\": \"0x1\", \"class\": \"firefox\", \"title\": \"Example\", \"at\": \"10 20\", \"size\": \"300x200\"}";
    let window = ActiveWindow { geometry: Some("10 20,300x200".to_string()), ..firefox() };
    let (state, action) =
        minimize_step(MinimizeState::Asked, MinimizeEvent::Answered(Some(answer.to_string())));
    assert_eq!(
        action,
        MinimizeAction::Capture { window_id: "0x1".to_string(), geometry: "10 20,300x200".to_string() }
    );
    assert_eq!(state, MinimizeState::Capturing(window));
    assert_eq!(
        minimize_step(state, MinimizeEvent::Captured(Some("/p/0x1.thumb.png".to_string()))),
        (
            MinimizeState::Hiding(firefox_record(Some("/p/0x1.thumb.png"))),
            MinimizeAction::Hide { target: "special:minimum,address:0x1".to_string() }
        )
    );
}

#[test]
fn minimize_goes_on_without_a_preview_when_the_capture_fails() {
    let window = ActiveWindow { geometry: Some("0 0,1x1".to_string()), ..firefox() };
    assert_eq!(
        minimize_step(MinimizeState::Capturing(window), MinimizeEvent::Captured(None)),
        (
            MinimizeState::Hiding(firefox_record(None)),
            MinimizeAction::Hide { target: "special:minimum,address:0x1".to_string() }
        )
    );
}

#[test]
fn minimize_ends_where_there_is_no_window_to_minimize() {
    for answer in [
        None,
        Some(String::new()),
        Some("{\"address\":\"0x1\",\"class\":\"wofi\",\"title\":\"t\"}".to_string()),
        Some("{\"class\":\"kitty\",\"title\":\"t\"}".to_string()),
    ] {
        assert_eq!(
            minimize_step(MinimizeState::Asked, MinimizeEvent::Answered(answer)),
            (MinimizeState::Finished, MinimizeAction::Stop)
        );
    }
}

#[test]
fn minimize_hands_the_record_out_only_after_a_move() {
    assert_eq!(
        minimize_step(MinimizeState::Hiding(firefox_record(None)), MinimizeEvent::Moved(true)),
        (MinimizeState::Finished, MinimizeAction::Insert(firefox_record(None)))
    );
    assert_eq!(
        minimize_step(MinimizeState::Hiding(firefox_record(None)), MinimizeEvent::Moved(false)),
        (MinimizeState::Finished, MinimizeAction::Stop)
    );
}

#[test]
fn minimize_ends_on_an_event_out_of_turn() {
    assert_eq!(
        minimize_step(MinimizeState::Start, MinimizeEvent::Moved(true)),
        (MinimizeState::Finished, MinimizeAction::Stop)
    );
    assert_eq!(
        minimize_step(MinimizeState::Asked, MinimizeEvent::Begin),
        (MinimizeState::Finished, MinimizeAction::Stop)
    );
    assert_eq!(
        minimize_step(MinimizeState::Hiding(firefox_record(None)), MinimizeEvent::Captured(None)),
        (MinimizeState::Finished, MinimizeAction::Stop)
    );
    assert_eq!(
        minimize_step(MinimizeState::Finished, MinimizeEvent::Begin),
        (MinimizeState::Finished, MinimizeAction::Stop)
    );
}

#[test]
fn a_whole_minimize_ends_with_one_record_in_the_registry() {
    let mut registry = Registry::new();
    let mut state = MinimizeState::Start;
    let mut event = MinimizeEvent::Begin;
    let mut asked = Vec::new();
    loop {
        let (next, action) = minimize_step(state, event);
        state = next;
        event = match action {
            MinimizeAction::AskActiveWindow => {
                asked.push("ask".to_string());
                MinimizeEvent::Answered(Some(
                    "{\"address\": \"0x1\", \"class\": \"firefox\", \"title\": \"Example\", \"at\": \"1 2\", \"size\": \"3 4\"}".to_string(),
                ))
            }
            MinimizeAction::Capture { window_id, geometry } => {
                asked.push(format!("capture {} {}", window_id, geometry));
                MinimizeEvent::Captured(None)
            }
            MinimizeAction::Hide { target } => {
                asked.push(format!("hide {}", target));
                MinimizeEvent::Moved(true)
            }
            MinimizeAction::Insert(record) => {
                assert!(minimize(&mut registry, record, true));
                break;
            }
            MinimizeAction::Stop => break,
        };
    }
    assert_eq!(state, MinimizeState::Finished);
    assert_eq!(asked, vec!["ask", "capture 0x1 1 2,3 4", "hide special:minimum,address:0x1"]);
    assert_eq!(registry.windows, vec![firefox_record(None)]);
}

#[test]
fn restore_walks_through_workspace_move_focus_and_removal() {
    let start = RestoreState::Start("0x1".to_string());
    let (state, action) = restore_step(start, RestoreEvent::Begin);
    assert_eq!(state, RestoreState::Asked("0x1".to_string()));
    assert_eq!(action, RestoreAction::AskActiveWorkspace);
    let (state, action) =
        restore_step(state, RestoreEvent::Answered(Some("{\"id\": 4, \"name\": \"4\"}".to_string())));
    assert_eq!(state, RestoreState::Moving("0x1".to_string()));
    assert_eq!(action, RestoreAction::Move { target: "4,address:0x1".to_string() });
    let (state, action) = restore_step(state, RestoreEvent::Dispatched(true));
    assert_eq!(state, RestoreState::Focusing("0x1".to_string()));
    assert_eq!(action, RestoreAction::Focus { target: "address:0x1".to_string() });
    let (state, action) = restore_step(state, RestoreEvent::Dispatched(true));
    assert_eq!(state, RestoreState::Finished);
    assert_eq!(action, RestoreAction::Remove { address: "0x1".to_string() });
}

#[test]
fn restore_falls_back_to_the_first_workspace() {
    assert_eq!(
        restore_step(RestoreState::Asked("0x1".to_string()), RestoreEvent::Answered(None)),
        (
            RestoreState::Moving("0x1".to_string()),
            RestoreAction::Move { target: "1,address:0x1".to_string() }
        )
    );
    assert_eq!(
        restore_step(
            RestoreState::Asked("0x1".to_string()),
            RestoreEvent::Answered(Some("{\"name\": \"x\"}".to_string()))
        ),
        (
            RestoreState::Moving("0x1".to_string()),
            RestoreAction::Move { target: "1,address:0x1".to_string() }
        )
    );
}

#[test]
fn restore_removes_the_record_even_when_move_and_focus_fail() {
    let mut registry = Registry::new();
    registry.insert(firefox_record(None));
    let mut state = RestoreState::Start("0x1".to_string());
    let mut event = RestoreEvent::Begin;
    loop {
        let (next, action) = restore_step(state, event);
        state = next;
        event = match action {
            RestoreAction::AskActiveWorkspace => RestoreEvent::Answered(None),
            RestoreAction::Move { .. } => RestoreEvent::Dispatched(false),
            RestoreAction::Focus { .. } => RestoreEvent::Dispatched(false),
            RestoreAction::Remove { address } => {
                restore(&mut registry, &address);
                break;
            }
            RestoreAction::Stop => break,
        };
    }
    assert_eq!(state, RestoreState::Finished);
    assert_eq!(registry.len(), 0);
}

#[test]
fn restore_ends_on_an_event_out_of_turn() {
    assert_eq!(
        restore_step(RestoreState::Start("0x1".to_string()), RestoreEvent::Dispatched(true)),
        (RestoreState::Finished, RestoreAction::Stop)
    );
    assert_eq!(
        restore_step(RestoreState::Moving("0x1".to_string()), RestoreEvent::Begin),
        (RestoreState::Finished, RestoreAction::Stop)
    );
    assert_eq!(
        restore_step(RestoreState::Finished, RestoreEvent::Begin),
        (RestoreState::Finished, RestoreAction::Stop)
    );
}

#[test]
fn a_title_with_quotes_survives_minimize_save_and_load() {
    let answer = "{\"address\": \"0x1\", \"class\": \"firefox\", \"title\": \"the \"best\" page\"}";
    let (state, _) =
        minimize_step(MinimizeState::Asked, MinimizeEvent::Answered(Some(answer.to_string())));
    let (_, action) = minimize_step(state, MinimizeEvent::Moved(true));
    let record = match action {
        MinimizeAction::Insert(record) => record,
        other => panic!("no record was handed out: {:?}", other),
    };
    assert_eq!(record.original_title, "the \"best\" page");
    assert_eq!(record.display_title, " firefox - the \"best\" page [1x0]");
    let mut registry = Registry::new();
    assert!(minimize(&mut registry, record, true));
    let mut stored = registry.save();
    for _ in 0..3 {
        let mut loaded = Registry::load(Some(&stored)).unwrap();
        assert_eq!(loaded.windows[0].original_title, "the \"best\" page");
        assert_eq!(loaded.windows[0].display_title, " firefox - the \"best\" page [1x0]");
        assert_eq!(loaded.windows[0].preview_path, Some(String::new()));
        restore(&mut loaded, "0x9");
        stored = loaded.save();
    }
}
