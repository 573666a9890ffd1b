use devconsole::{apply_config_to_registry, CommandArgs, CommandHandlers, ConCommand, ConVar, ConVarFlags, ConsoleRegistry};

type Noop = fn(&CommandArgs, &mut ());

fn noop(_args: &CommandArgs, _world: &mut ()) {}

#[test]
fn test_registry_var() {
    let mut registry = ConsoleRegistry::new();

    registry.register_var(ConVar::new("sv_gravity", 800i32).description("World gravity"));

    assert!(registry.contains("sv_gravity"));
    assert_eq!(registry.get::<i32>("sv_gravity"), Some(800));
    assert_eq!(registry.get_string("sv_gravity"), Some("800".to_string()));
}

#[test]
fn test_registry_set() {
    let mut registry = ConsoleRegistry::new();

    registry.register_var(ConVar::new("sv_gravity", 800i32));

    assert!(registry.set("sv_gravity", 1000i32));
    assert_eq!(registry.get::<i32>("sv_gravity"), Some(1000));

    assert!(registry.set_string("sv_gravity", "500"));
    assert_eq!(registry.get::<i32>("sv_gravity"), Some(500));
}

#[test]
fn test_registry_cmd() {
    let mut registry = ConsoleRegistry::new();

    let (_, _, is_new) = registry.register_cmd(ConCommand::new("test", noop as Noop).description("Test command"));

    assert!(is_new);
    assert!(registry.contains("test"));
    assert!(registry.get_entry("test").unwrap().is_cmd());
}

#[test]
fn test_registry_prefix_iter() {
    let mut registry = ConsoleRegistry::new();

    registry.register_var(ConVar::new("sv_gravity", 800i32));
    registry.register_var(ConVar::new("sv_cheats", 0i32));
    registry.register_var(ConVar::new("cl_fov", 90i32));

    let sv_entries = registry.prefix_iter("sv_");
    assert_eq!(sv_entries.len(), 2);

    let cl_entries = registry.prefix_iter("cl_");
    assert_eq!(cl_entries.len(), 1);
}

#[test]
fn test_registry_fuzzy_find() {
    let mut registry = ConsoleRegistry::new();

    registry.register_var(ConVar::new("sv_gravity", 800i32));
    registry.register_var(ConVar::new("sv_cheats", 0i32));
    registry.register_var(ConVar::new("cl_showfps", 0i32));

    let matches = registry.fuzzy_find("svg");
    assert!(!matches.is_empty());
    assert!(matches.iter().any(|(name, _, _)| name == "sv_gravity"));
}

#[test]
fn test_registry_search() {
    let mut registry = ConsoleRegistry::new();

    registry.register_var(ConVar::new("sv_gravity", 800i32).description("World gravity force"));
    registry.register_var(ConVar::new("sv_cheats", 0i32).description("Enable cheats"));

    let matches = registry.search("gravity");
    assert_eq!(matches.len(), 1);

    let matches = registry.search("cheats");
    assert_eq!(matches.len(), 1);
}

#[test]
fn test_registry_modified_vars() {
    let mut registry = ConsoleRegistry::new();

    registry.register_var(ConVar::new("sv_gravity", 800i32));
    registry.register_var(ConVar::new("sv_cheats", 0i32));

    assert_eq!(registry.modified_vars().len(), 0);

    registry.set("sv_gravity", 1000i32);
    assert_eq!(registry.modified_vars().len(), 1);
}

#[test]
fn test_duplicate_detection() {
    let mut registry = ConsoleRegistry::new();

    let is_new = registry.register_var(ConVar::new("test_var", 42i32));
    assert!(is_new);

    let is_new = registry.register_var(ConVar::new("test_var", 100i32));
    assert!(!is_new);

    assert_eq!(registry.get::<i32>("test_var"), Some(100));

    let (_, _, is_new) = registry.register_cmd(ConCommand::new("test_cmd", noop as Noop));
    assert!(is_new);

    let (_, _, is_new) = registry.register_cmd(ConCommand::new("test_cmd", noop as Noop));
    assert!(!is_new);
}

#[test]
fn duplicate_var_takes_second_default_and_type() {
    let mut registry = ConsoleRegistry::new();
    registry.register_var(ConVar::new("x", 1i32));
    registry.set("x", 5i32);
    assert!(!registry.register_var(ConVar::new("x", true)));
    assert_eq!(registry.get::<i32>("x"), None);
    assert_eq!(registry.get::<bool>("x"), Some(true));
    assert_eq!(registry.len(), 1);
    assert!(registry.modified_vars().is_empty());
}

#[test]
fn var_and_cmd_share_one_namespace() {
    let mut registry = ConsoleRegistry::new();
    registry.register_var(ConVar::new("name", 1i32));
    let (_, _, is_new) = registry.register_cmd(ConCommand::new("name", noop as Noop));
    assert!(!is_new);
    assert!(registry.get_entry("name").unwrap().is_cmd());
    assert_eq!(registry.get_string("name"), None);
    assert!(!registry.set_string("name", "3"));
}

#[test]
fn wrong_type_and_missing_names_fail() {
    let mut registry = ConsoleRegistry::new();
    registry.register_var(ConVar::new("b", false));
    assert!(!registry.set("b", 3i32));
    assert!(!registry.set("missing", 3i32));
    assert!(!registry.set_string("b", "perhaps"));
    assert_eq!(registry.get::<bool>("b"), Some(false));
    assert!(registry.set_string("b", "YES"));
    assert_eq!(registry.get::<bool>("b"), Some(true));
}

#[test]
fn search_ignores_case_and_hidden() {
    let mut registry = ConsoleRegistry::new();
    registry.register_var(ConVar::new("sv_gravity", 800i32).description("World gravity force"));
    registry.register_var(ConVar::new("secret", 1i32).description("gravity too").flags(ConVarFlags::hidden()));
    registry.register_var(ConVar::new("b_grav", 1i32).description("GRAVITY in caps"));
    let matches = registry.search("GRAVITY");
    let names: Vec<String> = matches.iter().map(|m| m.0.clone()).collect();
    assert_eq!(names, vec!["b_grav".to_string(), "sv_gravity".to_string()]);
}

#[test]
fn fuzzy_find_ranks_and_skips_hidden() {
    let mut registry = ConsoleRegistry::new();
    registry.register_var(ConVar::new("saving", 0i32));
    registry.register_var(ConVar::new("sv_gravity", 0i32));
    registry.register_var(ConVar::new("svg_hidden", 0i32).flags(ConVarFlags::hidden()));
    let matches = registry.fuzzy_find("svg");
    let names: Vec<String> = matches.iter().map(|m| m.0.clone()).collect();
    assert_eq!(names, vec!["sv_gravity".to_string(), "saving".to_string()]);
    assert_eq!(matches[0].2.score, 23);
}

#[test]
fn listings_select_by_kind_and_flag() {
    let mut registry = ConsoleRegistry::new();
    registry.register_var(ConVar::new("a", 1i32).flags(ConVarFlags::archive()));
    registry.register_var(ConVar::new("b", 2i32));
    registry.register_cmd(ConCommand::new("c", noop as Noop));
    assert_eq!(registry.vars().len(), 2);
    assert_eq!(registry.cmds().len(), 1);
    assert_eq!(registry.iter().len(), 3);
    let archived = registry.archive_vars();
    assert_eq!(archived.len(), 1);
    assert_eq!(archived[0].0, "a");
    assert!(registry.reset("b"));
    assert!(!registry.reset("c"));
}

#[test]
fn handler_store_take_and_put() {
    let mut handlers: CommandHandlers<u32> = CommandHandlers::new();
    handlers.register("a", 1);
    assert_eq!(handlers.take("a"), Some(1));
    assert!(!handlers.contains("a"));
    assert_eq!(handlers.take("a"), None);
    handlers.put("a", 1);
    assert_eq!(handlers.get("a"), Some(&1));
}

#[test]
fn apply_config_reports_each_pair() {
    let mut registry = ConsoleRegistry::new();
    registry.register_var(ConVar::new("a", 1i32));
    registry.register_var(ConVar::new("ro", 1i32).flags(ConVarFlags::read_only()));
    let pairs = vec![
        ("a".to_string(), "5".to_string()),
        ("a".to_string(), "x".to_string()),
        ("ro".to_string(), "2".to_string()),
        ("missing".to_string(), "2".to_string()),
    ];
    assert_eq!(apply_config_to_registry(&pairs, &mut registry), vec![true, false, false, false]);
    assert_eq!(registry.get::<i32>("a"), Some(5));
    assert_eq!(registry.get::<i32>("ro"), Some(1));
}
