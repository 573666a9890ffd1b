use devconsole::{
    CommandArgs, ConCommand, ConVar, ConVarFlags, Console, ConsoleOutputLevel, Dispatch, PermissionLevel,
};

type Handler = fn(&CommandArgs, &mut World);

struct World {
    console: Console<Handler>,
    count: usize,
    last_args: Vec<String>,
    changes_seen: usize,
    outputs: Vec<(ConsoleOutputLevel, String)>,
}

fn echo(args: &CommandArgs, w: &mut World) {
    w.console.builtin_echo(args);
}

fn help(args: &CommandArgs, w: &mut World) {
    w.console.builtin_help(args);
}

fn toggle(args: &CommandArgs, w: &mut World) {
    w.console.builtin_toggle(args);
}

fn reset(args: &CommandArgs, w: &mut World) {
    w.console.builtin_reset(args);
}

fn alias(args: &CommandArgs, w: &mut World) {
    w.console.builtin_alias(args);
}

fn unalias(args: &CommandArgs, w: &mut World) {
    w.console.builtin_unalias(args);
}

fn quit(_args: &CommandArgs, w: &mut World) {
    w.count += 100;
}

fn record(args: &CommandArgs, w: &mut World) {
    w.count += 1;
    w.last_args = args.iter();
}

fn app() -> World {
    let mut console: Console<Handler> = Console::new();
    console.register_sv_cheats();
    console.register_cmd(ConCommand::new("echo", echo as Handler));
    console.register_cmd(ConCommand::new("help", help as Handler));
    console.register_cmd(ConCommand::new("toggle", toggle as Handler));
    console.register_cmd(ConCommand::new("reset", reset as Handler));
    console.register_cmd(ConCommand::new("alias", alias as Handler));
    console.register_cmd(ConCommand::new("unalias", unalias as Handler));
    console.register_cmd(ConCommand::new("quit", quit as Handler));
    World { console, count: 0, last_args: Vec::new(), changes_seen: 0, outputs: Vec::new() }
}

fn update(w: &mut World) {
    let queue = w.console.take_queue();
    for cmd in queue {
        if let Dispatch::Run(c) = w.console.dispatch(cmd) {
            if let Some(h) = w.console.begin_command(&c.name) {
                let argv: Vec<&str> = c.args.iter().map(|s| s.as_str()).collect();
                let args = CommandArgs::new(&c.raw, argv);
                h(&args, w);
                w.console.finish_command(&c.name, h, None);
            }
        }
    }
    let (outputs, changes, _clear) = w.console.flush();
    w.changes_seen += changes.len();
    for o in outputs {
        w.outputs.push((o.level, o.message));
    }
}

fn queue_command(w: &mut World, cmd: &str) {
    w.console.intake(cmd);
}

#[test]
fn test_command_execution() {
    let mut w = app();
    w.console.register_cmd(ConCommand::new("test_cmd", record as Handler).description("Test command"));
    queue_command(&mut w, "test_cmd arg1 arg2");
    update(&mut w);
    assert_eq!(w.count, 1, "Command should have been executed once");
    assert_eq!(w.last_args, vec!["arg1", "arg2"]);
}

#[test]
fn test_convar_get_set_via_input() {
    let mut w = app();
    w.console.register_var(ConVar::new("test_var", 42i32).description("Test variable"));
    assert_eq!(w.console.registry().get::<i32>("test_var"), Some(42));
    queue_command(&mut w, "test_var 100");
    update(&mut w);
    assert_eq!(w.console.registry().get::<i32>("test_var"), Some(100));
}

#[test]
fn test_builtin_echo_command() {
    let mut w = app();
    queue_command(&mut w, "echo hello world");
    update(&mut w);
    assert!(w.outputs.contains(&(ConsoleOutputLevel::Info, "hello world".to_string())));
}

#[test]
fn test_multiple_commands_semicolon() {
    let mut w = app();
    w.console.register_cmd(ConCommand::new("inc", record as Handler));
    queue_command(&mut w, "inc; inc; inc");
    update(&mut w);
    assert_eq!(w.count, 3, "All three commands should have executed");
}

#[test]
fn lib_test_convar_changed_event() {
    let mut w = app();
    w.console.register_var(ConVar::new("test_var", 10i32));
    queue_command(&mut w, "test_var 20");
    update(&mut w);
    let (_, changes, _) = w.console.flush();
    assert!(changes.is_empty(), "Changes should have been sent");
    assert_eq!(w.changes_seen, 1);
}

#[test]
fn test_builtin_help_command() {
    let mut w = app();
    queue_command(&mut w, "help");
    update(&mut w);
    assert!(w.outputs.contains(&(ConsoleOutputLevel::Info, "  echo".to_string())));
}

#[test]
fn test_builtin_toggle_command() {
    let mut w = app();
    w.console.register_var(ConVar::new("test_bool", false));
    assert_eq!(w.console.registry().get::<bool>("test_bool"), Some(false));
    queue_command(&mut w, "toggle test_bool");
    update(&mut w);
    assert_eq!(w.console.registry().get::<bool>("test_bool"), Some(true));
    queue_command(&mut w, "toggle test_bool");
    update(&mut w);
    assert_eq!(w.console.registry().get::<bool>("test_bool"), Some(false));
}

#[test]
fn test_builtin_reset_command() {
    let mut w = app();
    w.console.register_var(ConVar::new("test_var", 42i32));
    queue_command(&mut w, "test_var 100");
    update(&mut w);
    assert_eq!(w.console.registry().get::<i32>("test_var"), Some(100));
    queue_command(&mut w, "reset test_var");
    update(&mut w);
    assert_eq!(w.console.registry().get::<i32>("test_var"), Some(42));
}

#[test]
fn test_alias_expansion() {
    let mut w = app();
    w.console.register_cmd(ConCommand::new("test_cmd", record as Handler));
    w.console.add_alias("tc", "test_cmd");
    queue_command(&mut w, "tc arg1 arg2");
    update(&mut w);
    update(&mut w);
    assert_eq!(w.count, 1, "Aliased command should have executed");
    assert_eq!(w.last_args, vec!["arg1", "arg2"], "Args should be passed through");
}

#[test]
fn test_alias_command() {
    let mut w = app();
    queue_command(&mut w, "alias q quit");
    update(&mut w);
    assert_eq!(w.console.aliases().get("q"), Some("quit"));
    queue_command(&mut w, "unalias q");
    update(&mut w);
    assert_eq!(w.console.aliases().get("q"), None);
}

#[test]
fn test_cheat_enforcement() {
    let mut w = app();
    w.console.register_var(ConVar::new("god_mode", false).flags(ConVarFlags::cheat()).description("Enable god mode"));
    assert_eq!(w.console.registry().get::<i32>("sv_cheats"), Some(0));
    queue_command(&mut w, "god_mode 1");
    update(&mut w);
    assert_eq!(w.console.registry().get::<bool>("god_mode"), Some(false));
    queue_command(&mut w, "sv_cheats 1");
    update(&mut w);
    assert_eq!(w.console.registry().get::<i32>("sv_cheats"), Some(1));
    queue_command(&mut w, "god_mode 1");
    update(&mut w);
    assert_eq!(w.console.registry().get::<bool>("god_mode"), Some(true));
}

#[test]
fn test_permission_enforcement() {
    let mut w = app();
    w.console.register_cmd(
        ConCommand::new("admin_cmd", record as Handler).permission(PermissionLevel::Admin).description("Admin only command"),
    );
    w.console.set_permission_level(PermissionLevel::User);
    queue_command(&mut w, "admin_cmd");
    update(&mut w);
    assert_eq!(w.count, 0);
    w.console.set_permission_level(PermissionLevel::Admin);
    queue_command(&mut w, "admin_cmd");
    update(&mut w);
    assert_eq!(w.count, 1);
}

#[test]
fn test_combined_cheat_and_permission() {
    let mut w = app();
    w.console.register_cmd(
        ConCommand::new("cheat_admin_cmd", record as Handler)
            .flags(ConVarFlags::cheat())
            .permission(PermissionLevel::Admin)
            .description("Requires both cheats and admin"),
    );
    w.console.set_permission_level(PermissionLevel::Admin);
    queue_command(&mut w, "cheat_admin_cmd");
    update(&mut w);
    assert_eq!(w.count, 0);
    queue_command(&mut w, "sv_cheats 1");
    update(&mut w);
    queue_command(&mut w, "cheat_admin_cmd");
    update(&mut w);
    assert_eq!(w.count, 1);
}

#[test]
fn test_sv_cheats_requires_admin() {
    let mut w = app();
    w.console.set_permission_level(PermissionLevel::User);
    queue_command(&mut w, "sv_cheats 1");
    update(&mut w);
    assert_eq!(w.console.registry().get::<i32>("sv_cheats"), Some(0));
    w.console.set_permission_level(PermissionLevel::Admin);
    queue_command(&mut w, "sv_cheats 1");
    update(&mut w);
    assert_eq!(w.console.registry().get::<i32>("sv_cheats"), Some(1));
}

#[test]
fn god_mode_command_gated_until_cheats_enabled() {
    let mut w = app();
    w.console.register_cmd(
        ConCommand::new("god_mode", record as Handler).flags(ConVarFlags::cheat()).permission(PermissionLevel::Admin),
    );
    w.console.set_permission_level(PermissionLevel::Admin);
    queue_command(&mut w, "god_mode");
    update(&mut w);
    assert_eq!(w.count, 0);
    assert!(w.outputs.contains(&(
        ConsoleOutputLevel::Error,
        "Cannot execute 'god_mode': Requires sv_cheats to be enabled".to_string()
    )));
    queue_command(&mut w, "sv_cheats 1");
    update(&mut w);
    queue_command(&mut w, "god_mode");
    update(&mut w);
    assert_eq!(w.count, 1);
}

#[test]
fn alias_q_runs_quit_on_next_tick() {
    let mut w = app();
    w.console.add_alias("q", "quit");
    queue_command(&mut w, "q extra");
    update(&mut w);
    assert_eq!(w.count, 0);
    assert!(!w.outputs.iter().any(|o| o.1.contains("Unknown command")));
    update(&mut w);
    assert_eq!(w.count, 100);
}

#[test]
fn permission_error_names_both_levels() {
    let mut w = app();
    w.console.set_permission_level(PermissionLevel::User);
    queue_command(&mut w, "sv_cheats 1");
    update(&mut w);
    assert!(w.outputs.contains(&(
        ConsoleOutputLevel::Error,
        "Cannot set 'sv_cheats': Insufficient permission (requires Admin, have User)".to_string()
    )));
}

#[test]
fn reading_a_variable_reports_value_and_description() {
    let mut w = app();
    queue_command(&mut w, "sv_cheats");
    update(&mut w);
    assert!(w.outputs.contains(&(ConsoleOutputLevel::Command, "$ sv_cheats".to_string())));
    assert!(w.outputs.contains(&(ConsoleOutputLevel::Result, "\"sv_cheats\" = \"0\"".to_string())));
    assert!(w.outputs.contains(&(
        ConsoleOutputLevel::Info,
        " - Enable cheat-protected commands and variables".to_string()
    )));
}

#[test]
fn unknown_and_bad_values_are_reported() {
    let mut w = app();
    w.console.register_var(ConVar::new("n", 1i32));
    queue_command(&mut w, "nosuch; n abc; echo \"open");
    update(&mut w);
    assert!(w.outputs.contains(&(ConsoleOutputLevel::Error, "Unknown command or variable: 'nosuch'".to_string())));
    assert!(w.outputs.contains(&(ConsoleOutputLevel::Error, "Cannot set 'n': invalid value or read-only".to_string())));
    assert!(w.outputs.contains(&(
        ConsoleOutputLevel::Error,
        "Parse error: unterminated string at position 5".to_string()
    )));
    assert_eq!(w.console.registry().get::<i32>("n"), Some(1));
}

#[test]
fn set_joins_arguments_and_clamps() {
    let mut w = app();
    w.console.register_var(ConVar::new("motd", "x".to_string()));
    queue_command(&mut w, "motd hello   big world; sv_cheats 5");
    update(&mut w);
    assert_eq!(w.console.registry().get::<String>("motd"), Some("hello big world".to_string()));
    assert_eq!(w.console.registry().get::<i32>("sv_cheats"), Some(1));
    assert_eq!(w.changes_seen, 2);
}

#[test]
fn failed_handler_is_reported_and_restored() {
    let mut w = app();
    w.console.register_cmd(ConCommand::new("boom", record as Handler));
    let h = w.console.begin_command("boom").unwrap();
    assert!(!w.console.handlers().contains("boom"));
    w.console.finish_command("boom", h, Some("bad thing".to_string()));
    assert!(w.console.handlers().contains("boom"));
    let (outputs, _, _) = w.console.flush();
    assert_eq!(outputs[0].message, "Command 'boom' panicked: bad thing");
}

#[test]
fn script_lines_skip_comments() {
    let mut w = app();
    let lines = vec!["".to_string(), "// c".to_string(), "# c".to_string(), "  echo hi ".to_string(), "\"x".to_string()];
    assert_eq!(w.console.queue_script(&lines), 1);
    update(&mut w);
    assert!(w.outputs.contains(&(ConsoleOutputLevel::Info, "hi".to_string())));
}

#[test]
fn toggle_and_reset_respect_the_access_gate() {
    let mut w = app();
    w.console.register_var(ConVar::new("god_mode", false).flags(ConVarFlags::cheat()));
    w.console.set_permission_level(PermissionLevel::User);
    queue_command(&mut w, "toggle sv_cheats");
    update(&mut w);
    assert_eq!(w.console.registry().get::<i32>("sv_cheats"), Some(0));
    assert!(w.outputs.contains(&(
        ConsoleOutputLevel::Error,
        "Cannot set 'sv_cheats': Insufficient permission (requires Admin, have User)".to_string()
    )));
    queue_command(&mut w, "toggle god_mode");
    update(&mut w);
    assert_eq!(w.console.registry().get::<bool>("god_mode"), Some(false));
    assert!(w.outputs.contains(&(
        ConsoleOutputLevel::Error,
        "Cannot set 'god_mode': Requires sv_cheats to be enabled".to_string()
    )));
    w.console.set_permission_level(PermissionLevel::Admin);
    queue_command(&mut w, "sv_cheats 1; toggle god_mode");
    update(&mut w);
    assert_eq!(w.console.registry().get::<bool>("god_mode"), Some(true));
    queue_command(&mut w, "sv_cheats 0; reset god_mode");
    update(&mut w);
    assert_eq!(w.console.registry().get::<bool>("god_mode"), Some(true));
    queue_command(&mut w, "sv_cheats 1; reset god_mode");
    update(&mut w);
    assert_eq!(w.console.registry().get::<bool>("god_mode"), Some(false));
}
