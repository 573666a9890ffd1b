use devconsole::{ConVarChangedEvent, ConsoleInputEvent, ConsoleOutputEvent, ConsoleOutputLevel, ConsoleToggleEvent};

#[test]
fn test_console_input_event() {
    let event = ConsoleInputEvent::new("sv_cheats 1");
    assert_eq!(event.command, "sv_cheats 1");
}

#[test]
fn test_console_output_event() {
    let event = ConsoleOutputEvent::error("Something went wrong".to_string());
    assert_eq!(event.level, ConsoleOutputLevel::Error);
    assert_eq!(event.message, "Something went wrong");
}

#[test]
fn events_test_convar_changed_event() {
    let event = ConVarChangedEvent::new("sv_gravity", "800", "1000");
    assert_eq!(&*event.name, "sv_gravity");
    assert_eq!(event.old_value, "800");
    assert_eq!(event.new_value, "1000");
}

#[test]
fn output_levels_and_toggles() {
    assert_eq!(ConsoleOutputEvent::result("r".to_string()).level, ConsoleOutputLevel::Result);
    assert_eq!(ConsoleOutputEvent::command("c".to_string()).level, ConsoleOutputLevel::Command);
    assert_eq!(ConsoleOutputEvent::warn("w".to_string()).level, ConsoleOutputLevel::Warn);
    assert_eq!(ConsoleOutputEvent::debug("d".to_string()).level, ConsoleOutputLevel::Debug);
    assert_eq!(ConsoleOutputEvent::info("i".to_string()).level, ConsoleOutputLevel::Info);
    assert_eq!(ConsoleOutputLevel::default(), ConsoleOutputLevel::Info);
    assert!(ConsoleToggleEvent::opened().open);
    assert!(!ConsoleToggleEvent::closed().open);
}
