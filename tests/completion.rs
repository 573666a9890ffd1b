use devconsole::{suggest_completions, ConVar, ConVarFlags, ConsoleRegistry};

#[test]
fn suggests_best_match_for_last_word() {
    let mut registry = ConsoleRegistry::new();
    registry.register_var(ConVar::new("sv_gravity", 800i32));
    registry.register_var(ConVar::new("saving", 0i32));
    registry.register_var(ConVar::new("cl_showfps", 0i32));
    let s = suggest_completions(&registry, "toggle svg");
    let names: Vec<String> = s.iter().map(|c| c.suggestion.clone()).collect();
    assert_eq!(names, vec!["sv_gravity".to_string(), "saving".to_string()]);
    assert_eq!(s[0].highlighted_indices, vec![0, 1, 3]);
}

#[test]
fn no_word_no_suggestions() {
    let mut registry = ConsoleRegistry::new();
    registry.register_var(ConVar::new("x", 1i32));
    assert!(suggest_completions(&registry, "").is_empty());
    assert!(suggest_completions(&registry, "   ").is_empty());
}

#[test]
fn trailing_space_uses_previous_word_and_caps_count() {
    let mut registry = ConsoleRegistry::new();
    for name in ["a1", "a2", "a3", "a4", "a5", "a6", "a7"] {
        registry.register_var(ConVar::new(name, 0i32));
    }
    registry.register_var(ConVar::new("a0", 0i32).flags(ConVarFlags::hidden()));
    let s = suggest_completions(&registry, "a ");
    let names: Vec<String> = s.iter().map(|c| c.suggestion.clone()).collect();
    assert_eq!(names, vec!["a1", "a2", "a3", "a4", "a5", "a6"]);
}
