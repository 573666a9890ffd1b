use devconsole::{CommandArgs, ConCommand, ConVarFlags, PermissionLevel};

#[test]
fn test_command_args_basic() {
    let args = CommandArgs::new("echo hello world", vec!["hello", "world"]);
    assert_eq!(args.len(), 2);
    assert_eq!(args.get(0), Some("hello"));
    assert_eq!(args.get(1), Some("world"));
    assert_eq!(args.get(2), None);
}

#[test]
fn test_command_args_parse() {
    let args = CommandArgs::new("set 42", vec!["42"]);
    assert_eq!(args.parse::<i32>(0), Some(42));
    assert_eq!(args.parse::<i32>(1), None);
    assert_eq!(args.parse_or::<i32>(1, 0), 0);
}

#[test]
fn test_command_args_join() {
    let args = CommandArgs::new("echo hello world", vec!["hello", "world"]);
    assert_eq!(args.join(" "), "hello world");
    assert_eq!(args.join_from(1, " "), "world");
}

#[test]
fn test_concommand_creation() {
    let cmd = ConCommand::new("test", |_args: &CommandArgs, _world: &mut ()| {})
        .description("A test command")
        .flags(ConVarFlags::cheat());

    assert_eq!(cmd.name(), "test");
    assert_eq!(cmd.get_description(), "A test command");
    assert!(cmd.get_flags().contains(ConVarFlags::cheat()));
}

#[test]
fn command_args_edges() {
    let args = CommandArgs::new("cmd", vec![]);
    assert!(args.is_empty());
    assert_eq!(args.join(","), "");
    assert_eq!(args.join_from(5, " "), "");
    assert_eq!(args.get_or(0, "dflt"), "dflt");
    assert_eq!(args.raw(), "cmd");
    let args = CommandArgs::new("cmd a b c", vec!["a", "b", "c"]);
    assert_eq!(args.join(", "), "a, b, c");
    assert_eq!(args.join_from(3, " "), "");
    assert_eq!(args.iter(), vec!["a".to_string(), "b".to_string(), "c".to_string()]);
    assert_eq!(args.as_slice(), &["a", "b", "c"]);
}

#[test]
fn split_hands_back_metadata_and_handler() {
    let cmd = ConCommand::new("god", 7u8).permission(PermissionLevel::Admin);
    let (meta, handler) = cmd.split();
    assert_eq!(meta.name(), "god");
    assert_eq!(meta.get_required_permission(), PermissionLevel::Admin);
    assert_eq!(handler, 7);
}
