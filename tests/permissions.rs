use devconsole::{ConsolePermissions, PermissionLevel};

#[test]
fn test_permission_ordering() {
    assert!(PermissionLevel::User < PermissionLevel::Admin);
    assert!(PermissionLevel::Admin < PermissionLevel::Server);
}

#[test]
fn test_has_permission() {
    let perms = ConsolePermissions::new(PermissionLevel::Admin);

    assert!(perms.has_permission(PermissionLevel::User));
    assert!(perms.has_permission(PermissionLevel::Admin));
    assert!(!perms.has_permission(PermissionLevel::Server));
}

#[test]
fn test_default_is_server() {
    let perms = ConsolePermissions::default();
    assert_eq!(perms.current_level, PermissionLevel::Server);
}

#[test]
fn test_permission_name() {
    assert_eq!(PermissionLevel::User.name(), "User");
    assert_eq!(PermissionLevel::Admin.name(), "Admin");
    assert_eq!(PermissionLevel::Server.name(), "Server");
}

#[test]
fn default_level_is_user() {
    assert_eq!(PermissionLevel::default(), PermissionLevel::User);
    assert!(PermissionLevel::Server.at_least(PermissionLevel::Admin));
    assert!(!PermissionLevel::User.at_least(PermissionLevel::Admin));
}
