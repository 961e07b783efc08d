use grape_vector_db::enterprise::{
    ApiKey, AuthenticationManager, EnterpriseConfig, EnterpriseError, JwtToken, Permission, Role, User,
};
use std::collections::HashMap;
use std::time::{Duration, SystemTime};

fn read_only_user() -> User {
    User {
        id: "test_user".to_string(),
        username: "test".to_string(),
        email: None,
        roles: vec![Role::ReadOnlyUser],
        api_keys: vec![],
        created_at: SystemTime::now(),
        last_login: None,
        is_active: true,
        metadata: HashMap::new(),
    }
}

#[test]
fn test_role_permissions() {
    let super_admin = Role::SuperAdmin;
    let read_only = Role::ReadOnlyUser;

    assert!(super_admin.has_permission(&Permission::ReadData));
    assert!(super_admin.has_permission(&Permission::WriteData));
    assert!(super_admin.has_permission(&Permission::ManageDatabase));

    assert!(read_only.has_permission(&Permission::ReadData));
    assert!(!read_only.has_permission(&Permission::WriteData));
    assert!(!read_only.has_permission(&Permission::ManageDatabase));
}

#[test]
fn test_api_key_generation() {
    let api_key = ApiKey::new("test_key".to_string(), Some(Duration::from_secs(3600)));

    assert!(api_key.key.starts_with("gvdb_"));
    assert!(api_key.is_valid());
    assert_eq!(api_key.name, "test_key");
}

#[test]
fn test_authentication_manager() {
    let mut auth_manager = AuthenticationManager::new();

    let user_id = auth_manager
        .create_admin_user("admin".to_string(), "password123".to_string())
        .unwrap();

    let user = auth_manager.get_user(&user_id).unwrap();
    assert_eq!(user.username, "admin");
    assert!(user.has_permission(&Permission::ReadData));
    assert!(user.has_permission(&Permission::ManageDatabase));
}

#[test]
fn test_jwt_token_validation() {
    let user = read_only_user();

    let token = JwtToken::new(&user, Duration::from_secs(3600));
    assert!(token.is_valid());
    assert!(token.has_permission(&Permission::ReadData));
    assert!(!token.has_permission(&Permission::WriteData));
}

#[test]
fn test_enterprise_config() {
    let config = EnterpriseConfig::default();
    assert!(config.auth.enabled);
    assert!(config.monitoring.enable_prometheus);
    assert!(config.audit.enabled);
    assert!(config.performance.enable_simd);
}

#[test]
fn api_key_is_37_characters_of_lower_hex_after_the_prefix() {
    let k = ApiKey::new("k".to_string(), None);
    assert_eq!(k.key.len(), 37);
    assert!(k.key[5..].chars().all(|c| c.is_ascii_hexdigit() && !c.is_ascii_uppercase()));
    assert!(k.expires_at.is_none());
    assert!(k.is_valid());
}

#[test]
fn two_generated_keys_differ() {
    let a = ApiKey::generate_key();
    let b = ApiKey::generate_key();
    assert_ne!(a, b);
}

#[test]
fn expired_key_is_invalid() {
    let mut k = ApiKey::new("k".to_string(), Some(Duration::from_secs(10)));
    let created = k.created_at;
    assert!(k.is_valid_at(created + 9_999_999_999));
    assert!(!k.is_valid_at(created + 10_000_000_000));
    k.is_active = false;
    assert!(!k.is_valid_at(created));
}

#[test]
fn mark_used_records_a_time() {
    let mut k = ApiKey::new("k".to_string(), None);
    assert!(k.last_used.is_none());
    k.mark_used();
    assert!(k.last_used.is_some());
}

#[test]
fn user_keys_are_created_and_revoked() {
    let mut user = read_only_user();
    let key = user.create_api_key("ci".to_string(), None);
    assert_eq!(user.api_keys.len(), 1);
    assert_eq!(user.api_keys[0].key, key);
    assert!(!user.revoke_api_key("no-such-key"));
    assert!(user.revoke_api_key(&key));
    assert!(user.api_keys.is_empty());
    assert!(!user.revoke_api_key(&key));
}

#[test]
fn inactive_user_has_no_permission() {
    let mut user = read_only_user();
    assert!(user.has_permission(&Permission::ReadData));
    user.is_active = false;
    assert!(!user.has_permission(&Permission::ReadData));
}

#[test]
fn every_role_grants_what_it_should() {
    assert!(Role::DatabaseAdmin.has_permission(&Permission::ManageIndexes));
    assert!(!Role::DatabaseAdmin.has_permission(&Permission::ManageUsers));
    assert!(Role::DataManager.has_permission(&Permission::WriteData));
    assert!(!Role::DataManager.has_permission(&Permission::ManageDatabase));
    assert!(Role::SystemMonitor.has_permission(&Permission::ViewMetrics));
    assert!(!Role::SystemMonitor.has_permission(&Permission::ReadData));
    assert!(!Role::Custom("x".to_string()).has_permission(&Permission::ReadData));
    assert!(Role::SuperAdmin.has_permission(&Permission::SystemConfig));
}

#[test]
fn expired_token_grants_nothing() {
    let user = read_only_user();
    let token = JwtToken::new(&user, Duration::from_secs(1));
    let exp = token.expires_at;
    assert!(token.is_valid_at(exp - 1));
    assert!(!token.is_valid_at(exp));
    assert!(!token.has_permission_at(&Permission::ReadData, exp));
    assert!(token.has_permission_at(&Permission::ReadData, exp - 1));
}

#[test]
fn duplicate_username_is_refused() {
    let mut m = AuthenticationManager::new();
    let id = m.create_user("alice".to_string(), None, vec![Role::DataManager]).unwrap();
    assert!(m.username_taken("alice"));
    assert!(!m.username_taken("bob"));
    match m.create_user("alice".to_string(), None, vec![]) {
        Err(EnterpriseError::ConfigurationError(m)) => assert_eq!(m, "用户名 'alice' 已存在"),
        other => panic!("unexpected: {:?}", other),
    }
    assert_eq!(m.list_users().len(), 1);
    assert_eq!(m.get_user(&id).unwrap().username, "alice");
}

#[test]
fn unknown_api_key_is_refused() {
    let mut m = AuthenticationManager::new();
    let _ = m.create_user("svc".to_string(), None, vec![Role::ReadOnlyUser]).unwrap();
    assert!(m.authenticate_api_key("gvdb_unknown").is_err());
}

#[test]
fn permission_check_reports_missing_permission() {
    let mut m = AuthenticationManager::new();
    let id = m.create_user("reader".to_string(), None, vec![Role::ReadOnlyUser]).unwrap();
    assert!(m.check_permission(&id, &Permission::ReadData).is_ok());
    assert!(m.check_permission(&id, &Permission::WriteData).is_err());
    assert!(m.check_permission("nobody", &Permission::ReadData).is_err());
}

#[test]
fn audit_log_records_user_creation() {
    let mut m = AuthenticationManager::new();
    let _ = m.create_user("carol".to_string(), None, vec![]).unwrap();
    let logs = m.get_audit_logs(Some(10));
    assert!(!logs.is_empty());
}

#[test]
fn login_succeeds_for_an_active_user_and_locks_after_failures() {
    let mut m = AuthenticationManager::new();
    let _ = m.create_user("dave".to_string(), None, vec![Role::ReadOnlyUser]).unwrap();
    let u = m.authenticate_user_at("dave", "pw", 1_000).unwrap();
    assert_eq!(u.username, "dave");
    for t in 0..5 {
        assert!(m.authenticate_user_at("ghost", "pw", 2_000 + t).is_err());
    }
    assert!(m.authenticate_user_at("ghost", "pw", 2_010).is_err());
    assert!(m.authenticate_user("dave", "pw").is_ok());
}

#[test]
fn sessions_and_policy() {
    let mut m = AuthenticationManager::new();
    assert!(m.authenticate_jwt("no-such-session").is_err());
    assert!(m.authenticate_jwt_at("no-such-session", 0).is_err());
    m.cleanup_expired_sessions();
    m.cleanup_expired_sessions_at(0);
    let mut p = m.get_security_policy();
    assert_eq!(p.max_login_attempts, 5);
    p.max_login_attempts = 2;
    m.update_security_policy(p);
    assert_eq!(m.get_security_policy().max_login_attempts, 2);
    for t in 0..2 {
        assert!(m.authenticate_user_at("x", "pw", t).is_err());
    }
    match m.check_login_attempts("x", 10) {
        Err(EnterpriseError::AuthenticationFailed(_)) => {}
        other => panic!("{:?}", other),
    }
    assert!(m.check_login_attempts("x", 10 + 5 * 60 * 1000).is_ok());
}

#[test]
fn lifetimes_are_added_to_the_creation_time() {
    let k = ApiKey::new("k".to_string(), Some(Duration::from_millis(1500)));
    assert_eq!(k.expires_at, Some(k.created_at + 1_500_000_000));
    let k = ApiKey::new("k".to_string(), Some(Duration::from_nanos(7)));
    assert_eq!(k.expires_at, Some(k.created_at + 7));
    let token = JwtToken::new(&read_only_user(), Duration::from_secs(3600));
    assert_eq!(token.expires_at, token.issued_at + 3600);
    let config = EnterpriseConfig::default();
    assert_eq!(config.auth.token_expiry, Duration::from_secs(3600));
    assert_eq!(config.monitoring.metrics_interval, Duration::from_secs(30));
}
