use devconsole::CommandAliases;

#[test]
fn test_command_aliases() {
    let mut aliases = CommandAliases::new();

    aliases.add("q", "quit");
    aliases.add("nc", "noclip");

    assert_eq!(aliases.get("q"), Some("quit"));
    assert_eq!(aliases.get("nc"), Some("noclip"));
    assert_eq!(aliases.get("unknown"), None);
    assert!(aliases.contains("q"));
    assert!(!aliases.contains("unknown"));
    assert_eq!(aliases.len(), 2);

    aliases.remove("q");
    assert_eq!(aliases.get("q"), None);
    assert_eq!(aliases.len(), 1);
}

#[test]
fn alias_replaced_and_listed() {
    let mut aliases = CommandAliases::new();
    aliases.add("q", "quit");
    aliases.add("q", "exit");
    assert_eq!(aliases.get("q"), Some("exit"));
    assert_eq!(aliases.iter(), vec![("q".to_string(), "exit".to_string())]);
    assert!(!aliases.is_empty());
}
