use niflveil::info::parse_window_info;
use niflveil::record::MinimizedWindow;
use niflveil::registry::Registry;
use niflveil::workflow::{
    active_window, current_workspace, hide_target, menu_opens, minimize, minimized_record,
    focus_on, move_to_workspace, parse_command, preview_files, restore, restore_all, restore_last,
    restore_window, shorten_address, status, window_from_info, ActiveWindow, Command,
    RestoreRequest,
};

fn window(address: &str) -> MinimizedWindow {
    MinimizedWindow {
        address: address.to_string(),
        display_title: format!("w [{}]", address),
        class: "kitty".to_string(),
        original_title: "w".to_string(),
        preview_path: None,
        icon: "k".to_string(),
    }
}

fn registry_of(list: &[&str]) -> Registry {
    let mut registry = Registry::new();
    for a in list {
        registry.insert(window(a));
    }
    registry
}

fn addresses(registry: &Registry) -> Vec<String> {
    registry.windows.iter().map(|w| w.address.clone()).collect()
}

fn has_distinct_addresses(registry: &Registry) -> bool {
    let list = addresses(registry);
    (0..list.len()).all(|i| (i + 1..list.len()).all(|j| list[i] != list[j]))
}

#[test]
fn scenario_minimize_into_empty_registry() {
    let mut registry = Registry::load(None).unwrap();
    let info = "{\"address\": \"0x1\", \"class\": \"firefox\", \"title\": \"Example\"}";
    let active = active_window(Some(info)).unwrap();
    assert_eq!(hide_target(&active.address), "special:minimum,address:0x1");
    let record = minimized_record(&active, None);
    assert!(minimize(&mut registry, record, true));
    assert_eq!(registry.len(), 1);
    let kept = &registry.windows[0];
    assert_eq!(kept.address, "0x1");
    assert_eq!(kept.class, "firefox");
    assert_eq!(kept.original_title, "Example");
    assert_eq!(kept.icon, niflveil::icons::default_icons().rules[0].glyph);
    assert!(kept.display_title.contains("1x0"));
    assert_eq!(kept.display_title, " firefox - Example [1x0]");
    assert_eq!(kept.preview_path, None);
}

#[test]
fn scenario_restore_by_address() {
    let mut registry = registry_of(&["0x1", "0x2"]);
    restore(&mut registry, "0x1");
    assert_eq!(addresses(&registry), vec!["0x2"]);
}

#[test]
fn scenario_restore_last() {
    let mut registry = registry_of(&["0x1", "0x2"]);
    assert_eq!(restore_last(&mut registry), Some("0x2".to_string()));
    assert_eq!(addresses(&registry), vec!["0x1"]);
}

#[test]
fn scenario_status_before_and_after_a_minimize() {
    let mut registry = Registry::new();
    let report = status(&registry);
    assert_eq!(report.count, 0);
    assert_eq!(report.class, "empty");
    assert_eq!(report.text, "\u{f0638}");
    assert_eq!(report.tooltip, "No minimized windows");
    assert_eq!(
        report.render(),
        "{\"text\":\"\u{f0638}\",\"class\":\"empty\",\"tooltip\":\"No minimized windows\"}"
    );
    minimize(&mut registry, window("0x1"), true);
    let report = status(&registry);
    assert_eq!(report.count, 1);
    assert_eq!(report.class, "has-windows");
    assert_eq!(report.text, "\u{f0638} 1");
    assert_eq!(report.tooltip, "1 minimized windows");
    assert_eq!(
        report.render(),
        "{\"text\":\"\u{f0638} 1\",\"class\":\"has-windows\",\"tooltip\":\"1 minimized windows\"}"
    );
}

#[test]
fn status_counts_in_decimal() {
    let list: Vec<String> = (0..12).map(|i| format!("0x{}", i)).collect();
    let refs: Vec<&str> = list.iter().map(|s| s.as_str()).collect();
    let report = status(&registry_of(&refs));
    assert_eq!(report.count, 12);
    assert_eq!(report.text, "\u{f0638} 12");
    assert_eq!(report.tooltip, "12 minimized windows");
}

#[test]
fn restore_last_goes_by_insertion_not_by_address() {
    let mut registry = registry_of(&["0x9", "0x5", "0x1"]);
    assert_eq!(restore_last(&mut registry), Some("0x1".to_string()));
    assert_eq!(addresses(&registry), vec!["0x9", "0x5"]);
    assert_eq!(restore_last(&mut registry), Some("0x5".to_string()));
    assert_eq!(addresses(&registry), vec!["0x9"]);
}

#[test]
fn restore_last_on_empty_registry_does_nothing() {
    let mut registry = Registry::new();
    assert_eq!(restore_last(&mut registry), None);
    assert_eq!(registry.len(), 0);
}

#[test]
fn restore_of_an_absent_address_changes_nothing() {
    let mut registry = registry_of(&["0x1", "0x2"]);
    restore(&mut registry, "0x3");
    assert_eq!(addresses(&registry), vec!["0x1", "0x2"]);
}

#[test]
fn restore_all_names_every_window_in_order_and_empties_the_registry() {
    let mut registry = registry_of(&["0x3", "0x1", "0x2"]);
    assert_eq!(restore_all(&mut registry), vec!["0x3", "0x1", "0x2"]);
    assert_eq!(registry.len(), 0);
    assert_eq!(restore_all(&mut registry), Vec::<String>::new());
}

#[test]
fn a_failed_move_leaves_the_registry_alone() {
    let mut registry = registry_of(&["0x1"]);
    assert!(!minimize(&mut registry, window("0x2"), false));
    assert_eq!(addresses(&registry), vec!["0x1"]);
}

#[test]
fn addresses_stay_distinct_over_a_run_of_commands() {
    let mut registry = Registry::new();
    minimize(&mut registry, window("0x1"), true);
    minimize(&mut registry, window("0x2"), true);
    assert!(has_distinct_addresses(&registry));
    restore(&mut registry, "0x1");
    minimize(&mut registry, window("0x1"), true);
    minimize(&mut registry, window("0x3"), false);
    minimize(&mut registry, window("0x3"), true);
    assert!(has_distinct_addresses(&registry));
    assert_eq!(addresses(&registry), vec!["0x2", "0x1", "0x3"]);
    restore_last(&mut registry);
    assert!(has_distinct_addresses(&registry));
    assert_eq!(addresses(&registry), vec!["0x2", "0x1"]);
    restore_all(&mut registry);
    assert!(has_distinct_addresses(&registry));
    assert_eq!(registry.len(), 0);
}

#[test]
fn picker_window_is_not_minimized() {
    let info = "{\"address\":\"0x1\",\"class\":\"wofi\",\"title\":\"pick\"}";
    assert_eq!(active_window(Some(info)), None);
    let other = "{\"address\":\"0x1\",\"class\":\"Wofi\",\"title\":\"pick\"}";
    assert!(active_window(Some(other)).is_some());
}

#[test]
fn no_active_window_means_nothing_to_minimize() {
    assert_eq!(active_window(None), None);
    assert_eq!(active_window(Some("")), None);
    assert_eq!(active_window(Some("{}")), None);
    assert_eq!(active_window(Some("{\"class\":\"a\",\"title\":\"t\"}")), None);
    assert_eq!(active_window(Some("{\"address\":\"0x1\",\"title\":\"t\"}")), None);
    assert_eq!(active_window(Some("{\"address\":\"0x1\",\"class\":\"a\"}")), None);
}

#[test]
fn geometry_needs_position_and_size() {
    let both = "{\"address\":\"0x1\",\"class\":\"a\",\"title\":\"t\",\"at\":\" 10 20 \",\"size\":\"300x200\"}";
    assert_eq!(
        active_window(Some(both)),
        Some(ActiveWindow {
            address: "0x1".to_string(),
            class: "a".to_string(),
            title: "t".to_string(),
            geometry: Some("10 20,300x200".to_string()),
        })
    );
    let one = "{\"address\":\"0x1\",\"class\":\"a\",\"title\":\"t\",\"at\":\"10 20\"}";
    assert_eq!(active_window(Some(one)).unwrap().geometry, None);
}

#[test]
fn short_address_is_the_last_four_characters_reversed() {
    assert_eq!(shorten_address("0x55d5e0a4b2c0"), "0c2b");
    assert_eq!(shorten_address("0x1"), "1x0");
    assert_eq!(shorten_address("abcd"), "dcba");
    assert_eq!(shorten_address(""), "");
}

#[test]
fn record_is_built_from_the_active_window() {
    let active = ActiveWindow {
        address: "0x55d5e0a4b2c0".to_string(),
        class: "Discord".to_string(),
        title: "general".to_string(),
        geometry: None,
    };
    let record = minimized_record(&active, Some("/tmp/window-previews/0x55d5e0a4b2c0.thumb.png".to_string()));
    assert_eq!(
        record,
        MinimizedWindow {
            address: "0x55d5e0a4b2c0".to_string(),
            display_title: "\u{f066f} Discord - general [0c2b]".to_string(),
            class: "Discord".to_string(),
            original_title: "general".to_string(),
            preview_path: Some("/tmp/window-previews/0x55d5e0a4b2c0.thumb.png".to_string()),
            icon: "\u{f066f}".to_string(),
        }
    );
}

#[test]
fn workspace_comes_from_the_answer_or_is_one() {
    assert_eq!(current_workspace(Some("{\"id\": 3, \"name\": \"3\"}")), 3);
    assert_eq!(current_workspace(Some("{\n    \"id\": -98,\n    \"name\": \"special\"\n}")), -98);
    assert_eq!(current_workspace(Some("{\"id\": \"x\"}")), 1);
    assert_eq!(current_workspace(Some("{\"name\": \"3\"}")), 1);
    assert_eq!(current_workspace(Some("")), 1);
    assert_eq!(current_workspace(None), 1);
}

#[test]
fn restore_targets_name_workspace_and_window() {
    assert_eq!(move_to_workspace(3, "0x1"), "3,address:0x1");
    assert_eq!(focus_on("0x1"), "address:0x1");
    assert_eq!(move_to_workspace(-98, "0xab"), "-98,address:0xab");
    assert_eq!(move_to_workspace(0, ""), "0,address:");
}

#[test]
fn restore_without_address_opens_the_picker() {
    assert_eq!(restore_window(Some("0x1")), RestoreRequest::Window("0x1".to_string()));
    assert_eq!(restore_window(None), RestoreRequest::Menu);
    assert!(!menu_opens(&Registry::new()));
    assert!(menu_opens(&registry_of(&["0x1"])));
}

#[test]
fn preview_files_lie_in_the_given_directory() {
    let files = preview_files("/tmp/window-previews", "0x1");
    assert_eq!(files.capture, "/tmp/window-previews/0x1.png");
    assert_eq!(files.thumbnail, "/tmp/window-previews/0x1.thumb.png");
}

#[test]
fn commands_are_read_from_the_arguments() {
    let args = |list: &[&str]| -> Vec<String> { list.iter().map(|s| s.to_string()).collect() };
    assert_eq!(parse_command(&args(&["prog", "minimize"])), Command::Minimize);
    assert_eq!(parse_command(&args(&["prog", "restore"])), Command::Restore(None));
    assert_eq!(
        parse_command(&args(&["prog", "restore", "0x1"])),
        Command::Restore(Some("0x1".to_string()))
    );
    assert_eq!(parse_command(&args(&["prog", "restore-all"])), Command::RestoreAll);
    assert_eq!(parse_command(&args(&["prog", "restore-last"])), Command::RestoreLast);
    assert_eq!(parse_command(&args(&["prog", "show"])), Command::Show);
    assert_eq!(parse_command(&args(&["prog", "Show"])), Command::Unknown("Show".to_string()));
    assert_eq!(parse_command(&args(&["prog"])), Command::Unknown(String::new()));
    assert_eq!(parse_command(&args(&[])), Command::Unknown(String::new()));
}

#[test]
fn attributes_decide_as_the_answer_does() {
    let info = parse_window_info("{\"address\":\"0x7\",\"class\":\"mpv\",\"title\":\"film\"}");
    assert_eq!(
        window_from_info(&info),
        Some(ActiveWindow {
            address: "0x7".to_string(),
            class: "mpv".to_string(),
            title: "film".to_string(),
            geometry: None,
        })
    );
}
