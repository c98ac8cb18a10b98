use settlers4_widescreen_tool::display::{detect_primary_resolution, DisplaySummary};
use settlers4_widescreen_tool::gui::{
    parse_dimension, Effect, Message, OperationKind, PathStatus, SettlersPatcher, StatusKind,
};

fn started() -> SettlersPatcher {
    let (app, effect) = SettlersPatcher::new(Some("/games/s4".to_string()), (2560, 1440));
    match effect {
        Effect::ValidateGamePath(p) => assert_eq!(p, "/games/s4"),
        other => panic!("unexpected effect {:?}", other),
    }
    app
}

#[test]
fn new_state_uses_the_detected_values() {
    let app = started();
    assert_eq!(app.custom_width, "2560");
    assert_eq!(app.custom_height, "1440");
    assert_eq!(app.get_active_resolution(), Some((2560, 1440)));
    assert_eq!(app.path_status(), PathStatus::InvalidDirectory);
    let (empty, effect) = SettlersPatcher::new(None, (1920, 1080));
    assert!(matches!(effect, Effect::Nothing));
    assert_eq!(empty.path_status(), PathStatus::NoDirectory);
}

#[test]
fn validation_enables_the_buttons() {
    let mut app = started();
    assert!(!app.can_apply());
    assert!(!app.can_restore());
    app.apply_validation(true, false);
    assert_eq!(app.path_status(), PathStatus::InvalidVersion);
    assert!(app.can_restore());
    assert!(!app.can_apply());
    app.apply_validation(true, true);
    assert_eq!(app.path_status(), PathStatus::ValidGogVersion);
    assert!(app.can_apply());
    app.apply_validation(false, true);
    assert!(!app.is_valid_gog_version);
}

#[test]
fn typed_dimensions_are_checked() {
    let mut app = started();
    assert!(matches!(app.update(Message::CustomWidthChanged(" 3440 ".to_string())), Effect::Nothing));
    assert_eq!(app.custom_width_parsed, Some(3440));
    app.update(Message::CustomWidthChanged("799".to_string()));
    assert_eq!(app.custom_width_parsed, None);
    assert_eq!(app.get_active_resolution(), None);
    app.update(Message::CustomHeightChanged("4321".to_string()));
    assert_eq!(app.custom_height_parsed, None);
    app.update(Message::CustomHeightChanged("600".to_string()));
    app.update(Message::CustomWidthChanged("+800".to_string()));
    assert_eq!(app.get_active_resolution(), Some((800, 600)));
    assert_eq!(parse_dimension("abc", 1, 10), None);
    assert_eq!(parse_dimension("", 0, 10), None);
    assert_eq!(parse_dimension("10", 0, 10), Some(10));
}

#[test]
fn apply_and_complete() {
    let mut app = started();
    app.apply_validation(true, true);
    match app.update(Message::ApplyPatch) {
        Effect::ApplyPatch { game_path, width, height } => {
            assert_eq!(game_path, "/games/s4");
            assert_eq!((width, height), (2560, 1440));
        }
        other => panic!("unexpected effect {:?}", other),
    }
    assert!(app.is_processing);
    assert!(!app.can_apply());
    assert_eq!(app.last_operation, Some(OperationKind::ApplyPatch));
    match app.update(Message::OperationComplete(Ok(()))) {
        Effect::ValidateGamePath(p) => assert_eq!(p, "/games/s4"),
        other => panic!("unexpected effect {:?}", other),
    }
    assert!(!app.is_processing);
    let status = app.status_message.as_ref().unwrap();
    assert_eq!(status.kind, StatusKind::Success);
    assert_eq!(status.text, "Patch applied successfully. Launch the game to verify.");
}

#[test]
fn restore_failure_is_reported() {
    let mut app = started();
    assert!(matches!(app.update(Message::RestoreDefault), Effect::RestoreDefault { .. }));
    assert!(matches!(
        app.update(Message::OperationComplete(Err("Restore failed: disk full".to_string()))),
        Effect::Nothing
    ));
    let status = app.status_message.as_ref().unwrap();
    assert_eq!(status.kind, StatusKind::Error);
    assert_eq!(status.text, "Operation failed: Restore failed: disk full");
}

#[test]
fn apply_without_a_resolution_does_nothing() {
    let mut app = started();
    app.update(Message::CustomWidthChanged("wide".to_string()));
    assert!(matches!(app.update(Message::ApplyPatch), Effect::Nothing));
    assert!(!app.is_processing);
}

#[test]
fn completion_without_an_operation() {
    let mut app = started();
    app.update(Message::OperationComplete(Ok(())));
    assert_eq!(app.status_message.as_ref().unwrap().text, "Operation completed.");
}

#[test]
fn tab_cycles_through_the_inputs() {
    let mut app = started();
    let ids: Vec<String> = (0..4)
        .map(|_| match app.update(Message::TabPressed(1)) {
            Effect::Focus(id) => id,
            other => panic!("unexpected effect {:?}", other),
        })
        .collect();
    assert_eq!(ids, vec!["game_path", "custom_width", "custom_height", "game_path"]);
    match app.update(Message::TabPressed(-1)) {
        Effect::Focus(id) => assert_eq!(id, "custom_height"),
        other => panic!("unexpected effect {:?}", other),
    }
    assert_eq!(app.current_focus_index, Some(2));
}

#[test]
fn path_messages() {
    let mut app = started();
    assert!(matches!(app.update(Message::BrowseGamePath), Effect::PickFolder));
    assert!(matches!(app.update(Message::GamePathSelected(None)), Effect::Nothing));
    assert_eq!(app.game_path, "/games/s4");
    match app.update(Message::GamePathSelected(Some("/other".to_string()))) {
        Effect::ValidateGamePath(p) => assert_eq!(p, "/other"),
        other => panic!("unexpected effect {:?}", other),
    }
    match app.update(Message::GamePathChanged("~/s4".to_string())) {
        Effect::ValidateGamePath(p) => assert_eq!(p, "~/s4"),
        other => panic!("unexpected effect {:?}", other),
    }
    assert_eq!(app.game_path, "~/s4");
}

#[test]
fn primary_monitor_is_preferred() {
    let a = DisplaySummary { is_primary: false, width: 1280, height: 1024 };
    let b = DisplaySummary { is_primary: true, width: 2560, height: 1440 };
    assert_eq!(detect_primary_resolution(&[a, b]), Some((2560, 1440)));
    assert_eq!(detect_primary_resolution(&[a]), Some((1280, 1024)));
    assert_eq!(detect_primary_resolution(&[]), Some((1920, 1080)));
}
