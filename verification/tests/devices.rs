use openwave::config::{Assignment, Config};
use openwave::devices::{
    describe_assignment, input_entries, input_items, monitor_summary, picked_assignment,
    picked_sink, selected_sink, sink_items, InputItem, SinkInfo, SourceInfo,
};

fn source(name: &str, is_monitor: bool) -> SourceInfo {
    SourceInfo { name: name.to_string(), description: format!("The {name}"), is_monitor }
}

fn sink(name: &str) -> SinkInfo {
    SinkInfo { name: name.to_string(), description: format!("The {name}") }
}

fn from_source(name: &str) -> Option<Assignment> {
    Some(Assignment::Source { name: name.to_string() })
}

fn from_app(name: &str) -> Option<Assignment> {
    Some(Assignment::App { name: name.to_string() })
}

fn items() -> Vec<InputItem> {
    input_items(
        &vec![source("hdmi.monitor", true), source("mic", false), source("line", false)],
        &vec!["Firefox".to_string(), "Discord".to_string()],
    )
}

#[test]
fn inputs_to_choose_from() {
    let list: Vec<(String, Option<Assignment>)> =
        items().into_iter().map(|i| (i.label, i.assignment)).collect();
    let expected = vec![
        ("No Input".to_string(), None),
        ("Virtual Device".to_string(), Some(Assignment::Virtual)),
        ("The mic".to_string(), from_source("mic")),
        ("The line".to_string(), from_source("line")),
        ("Firefox — Application".to_string(), from_app("Firefox")),
        ("Discord — Application".to_string(), from_app("Discord")),
        ("The hdmi.monitor".to_string(), from_source("hdmi.monitor")),
    ];
    assert_eq!(list, expected);
}

#[test]
fn outputs_to_choose_from() {
    let list = sink_items(&vec![sink("a"), sink("b")]);
    let shown: Vec<(&str, Option<&str>)> =
        list.iter().map(|i| (i.label.as_str(), i.name.as_deref())).collect();
    assert_eq!(
        shown,
        vec![("System Default", None), ("The a", Some("a")), ("The b", Some("b"))]
    );
    assert_eq!(picked_sink(&list, 0), None);
    assert_eq!(picked_sink(&list, 2), Some("b".to_string()));
    assert_eq!(picked_sink(&list, 3), None);
}

#[test]
fn current_output_is_selected() {
    let list = sink_items(&vec![sink("a"), sink("b"), sink("b")]);
    assert_eq!(selected_sink(&list, &None), 0);
    assert_eq!(selected_sink(&list, &Some("a".to_string())), 1);
    assert_eq!(selected_sink(&list, &Some("b".to_string())), 2);
    assert_eq!(selected_sink(&list, &Some("c".to_string())), 0);
    assert_eq!(selected_sink(&Vec::new(), &Some("a".to_string())), 0);
    let kept = Some("b".to_string());
    assert_eq!(picked_sink(&list, selected_sink(&list, &kept)), kept);
}

#[test]
fn current_input_is_selected() {
    let shown = input_entries(&items(), &from_app("Firefox"));
    assert_eq!(shown.selected, 4);
    assert_eq!(shown.labels.len(), 7);
    assert_eq!(shown.assignments.len(), 7);
    assert_eq!(input_entries(&items(), &None).selected, 0);
    assert_eq!(input_entries(&items(), &Some(Assignment::Virtual)).selected, 1);
}

#[test]
fn missing_input_is_kept_as_a_placeholder() {
    for (current, label) in [
        (from_source("usb"), "usb (unavailable)"),
        (from_app("Firefo"), "Firefo (not running)"),
    ] {
        let shown = input_entries(&items(), &current);
        assert_eq!(shown.selected, 7);
        assert_eq!(shown.labels[7], label);
        assert_eq!(picked_assignment(&shown.assignments, shown.selected), current);
    }
    let shown = input_entries(&Vec::new(), &Some(Assignment::Virtual));
    assert_eq!((shown.selected, shown.labels), (0, vec!["Virtual Device".to_string()]));
    let empty = input_entries(&Vec::new(), &None);
    assert_eq!((empty.selected, empty.labels.len()), (0, 0));
}

#[test]
fn assignment_behind_a_position() {
    let shown = input_entries(&items(), &None);
    assert_eq!(picked_assignment(&shown.assignments, 2), from_source("mic"));
    assert_eq!(picked_assignment(&shown.assignments, 0), None);
    assert_eq!(picked_assignment(&shown.assignments, 99), None);
}

#[test]
fn unchanged_drop_down_is_left_alone() {
    let wanted = input_entries(&items(), &None);
    assert!(!wanted.differs(&input_entries(&items(), &None)));
    let mut shown = input_entries(&items(), &None);
    shown.selected = 1;
    assert!(wanted.differs(&shown));
    let mut shown = input_entries(&items(), &None);
    shown.labels[6].push('!');
    assert!(wanted.differs(&shown));
    let mut shown = input_entries(&items(), &None);
    shown.labels.pop();
    shown.assignments.pop();
    assert!(wanted.differs(&shown));
}

#[test]
fn drop_down_follows_the_assignment_behind_a_label() {
    let item = |name: &str| vec![InputItem { label: "A".to_string(), assignment: from_source(name) }];
    let shown = input_entries(&item("x"), &from_source("x"));
    let wanted = input_entries(&item("y"), &from_source("y"));
    assert_eq!(shown.labels, wanted.labels);
    assert_eq!(shown.selected, wanted.selected);
    assert!(wanted.differs(&shown));
    assert_eq!(picked_assignment(&wanted.assignments, wanted.selected), from_source("y"));
}

#[test]
fn sidebar_texts() {
    let sinks = vec![sink("a"), sink("b")];
    assert_eq!(monitor_summary(&Some("b".to_string()), &sinks), "Routed to The b");
    assert_eq!(
        monitor_summary(&Some("c".to_string()), &sinks),
        "Routed to system default output"
    );
    assert_eq!(monitor_summary(&None, &sinks), "Routed to system default output");
    assert_eq!(describe_assignment(&None, None), "No input");
    assert_eq!(describe_assignment(&from_source("mic"), Some("Blue".to_string())), "Blue");
    assert_eq!(describe_assignment(&from_source("mic"), None), "mic");
    assert_eq!(describe_assignment(&from_app("OBS"), None), "OBS — application");
    assert_eq!(describe_assignment(&Some(Assignment::Virtual), None), "Virtual device");
}

#[test]
fn menu_for_new_channels() {
    let mut cfg = Config::default();
    cfg.rename_channel(1, "Game".to_string());
    let menu: Vec<(String, String)> =
        cfg.add_menu().into_iter().map(|e| (e.label, e.action)).collect();
    assert_eq!(menu.len(), 6);
    assert_eq!(menu[0], ("Music".to_string(), "win.add-channel('Music')".to_string()));
    assert_eq!(menu[5], ("Custom Channel".to_string(), "win.add-channel('')".to_string()));
}
