use devconsole::{ConVar, ConVarFlags, ConVarMeta, ConVarValue};

#[test]
fn test_convar_basic() {
    let cvar = ConVar::new("test", 42i32);
    assert_eq!(cvar.get(), 42);
    assert_eq!(cvar.name(), "test");
}

#[test]
fn test_convar_set() {
    let mut cvar = ConVar::new("test", 42i32);
    assert!(cvar.set(100));
    assert_eq!(cvar.get(), 100);
}

#[test]
fn test_convar_clamping() {
    let mut cvar = ConVar::new("test", 50i32).min(0).max(100);

    cvar.set(150);
    assert_eq!(cvar.get(), 100);

    cvar.set(-50);
    assert_eq!(cvar.get(), 0);

    cvar.set(50);
    assert_eq!(cvar.get(), 50);
}

#[test]
fn test_convar_readonly() {
    let mut cvar = ConVar::new("test", 42i32).flags(ConVarFlags::read_only());
    assert!(!cvar.set(100));
    assert_eq!(cvar.get(), 42);
}

#[test]
fn test_convar_reset() {
    let mut cvar = ConVar::new("test", 42i32);
    cvar.set(100);
    assert!(cvar.is_modified());

    cvar.reset();
    assert_eq!(cvar.get(), 42);
    assert!(!cvar.is_modified());
}

#[test]
fn test_convar_bool() {
    let mut cvar = ConVar::new("enabled", false);

    assert!(bool::parse("true").unwrap());
    assert!(bool::parse("1").unwrap());
    assert!(bool::parse("yes").unwrap());
    assert!(!bool::parse("false").unwrap());
    assert!(!bool::parse("0").unwrap());

    cvar.set(true);
    assert_eq!(cvar.get_string(), "1");
}

#[test]
fn test_convar_dyn() {
    let cvar = ConVarMeta::from_convar(ConVar::new("test", 42i32));
    assert_eq!(cvar.get_string(), "42");
    assert_eq!(cvar.default_string(), "42");
}

#[test]
fn test_convar_flags() {
    let flags = ConVarFlags::archive() | ConVarFlags::notify();
    assert!(flags.contains(ConVarFlags::archive()));
    assert!(flags.contains(ConVarFlags::notify()));
    assert!(!flags.contains(ConVarFlags::cheat()));
}

#[test]
fn integer_text_round_trips() {
    for s in ["42", "-17", "+8", "0", "2147483647", "-2147483648", "007"] {
        let v = i32::parse(s).unwrap();
        assert_eq!(i32::parse(&v.format()), Some(v));
    }
    assert_eq!(i32::parse("+8").unwrap().format(), "8");
    assert_eq!(i32::parse("007").unwrap().format(), "7");
    assert_eq!(i64::parse("-9223372036854775808").unwrap().format(), "-9223372036854775808");
}

#[test]
fn integer_parse_rejects_bad_text() {
    assert_eq!(i32::parse(""), None);
    assert_eq!(i32::parse("-"), None);
    assert_eq!(i32::parse("+"), None);
    assert_eq!(i32::parse("12a"), None);
    assert_eq!(i32::parse(" 1"), None);
    assert_eq!(i32::parse("2147483648"), None);
    assert_eq!(i64::parse("2147483648"), Some(2147483648));
    assert_eq!(i64::parse("9223372036854775808"), None);
    assert_eq!(i64::parse("99999999999999999999999"), None);
}

#[test]
fn bool_text_round_trips_and_ignores_case() {
    for s in ["TRUE", "Yes", "on", "1", "False", "NO", "Off", "0"] {
        let v = bool::parse(s).unwrap();
        assert_eq!(bool::parse(&v.format()), Some(v));
    }
    assert_eq!(bool::parse("On"), Some(true));
    assert_eq!(bool::parse("maybe"), None);
    assert_eq!(true.format(), "1");
}

#[test]
fn string_text_round_trips() {
    let v = String::parse("hello world").unwrap();
    assert_eq!(String::parse(&v.format()), Some(v));
}

#[test]
fn set_string_clamps_and_rejects() {
    let mut cvar = ConVar::new("fov", 90i32).min(60).max(120);
    assert!(cvar.set_string("150"));
    assert_eq!(cvar.get(), 120);
    assert!(cvar.set_string("10"));
    assert_eq!(cvar.get(), 60);
    assert!(!cvar.set_string("abc"));
    assert_eq!(cvar.get(), 60);
}

#[test]
fn read_only_refuses_text_and_reset() {
    let mut cvar = ConVar::new("ro", 5i32).flags(ConVarFlags::read_only());
    assert!(!cvar.set_string("7"));
    assert_eq!(cvar.get(), 5);
    cvar.reset();
    assert_eq!(cvar.get(), 5);
}

#[test]
fn min_reclamps_current_value() {
    let cvar = ConVar::new("x", 5i64).min(10);
    assert_eq!(cvar.get(), 10);
    assert_eq!(*cvar.default_value(), 5);
    assert!(cvar.has_bounds());
}

#[test]
fn string_and_bool_ignore_bounds() {
    let mut s = ConVar::new("s", "b".to_string()).min("c".to_string());
    assert!(s.set("a".to_string()));
    assert_eq!(s.get(), "a");
    assert!(!String::supports_bounds());
    assert!(i32::supports_bounds());
    let mut b = ConVar::new("b", false).max(false);
    assert!(b.set(true));
    assert_eq!(b.get(), true);
}

#[test]
fn flag_set_operations() {
    let f = ConVarFlags::cheat().union(ConVarFlags::hidden());
    assert!(f.contains(ConVarFlags::cheat()));
    assert!(!f.difference(ConVarFlags::cheat()).contains(ConVarFlags::cheat()));
    assert!(ConVarFlags::none().is_empty());
    let mut g = ConVarFlags::none();
    g |= ConVarFlags::dev_only();
    assert!(g.contains(ConVarFlags::dev_only()));
}

#[test]
fn reset_clamps_default_into_bounds() {
    let mut cvar = ConVar::new("x", 50i32).max(10);
    assert_eq!(cvar.get(), 10);
    cvar.set(3);
    cvar.reset();
    assert_eq!(cvar.get(), 10);
}
