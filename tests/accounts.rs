use adedge::upload::{change_password, change_upload_token};
use adedge::accounts::{
    admin_register_get, admin_users_create, bootstrap_users, check_login, normalize_preferences,
    public_register, require_admin,
};
use adedge::error::{ConflictKey, Field, ServiceError};
use adedge::objects::{admin_register_set, admin_users_delete, decode_blocked, update_email, BlockedValue};
use adedge::store::{eq_ignore_ascii_case, find_user, find_user_by_email, SettingsJson, UsersJson};

fn open_settings() -> SettingsJson {
    SettingsJson::new()
}

#[test]
fn duplicate_registration_conflicts() {
    let mut users = UsersJson { users: vec![] };
    let s = open_settings();
    assert_eq!(public_register(&mut users, &s, "alice", "a@x.com", "secret1", 1), Ok(()));
    assert_eq!(
        public_register(&mut users, &s, "alice", "a@x.com", "secret1", 2),
        Err(ServiceError::Conflict(ConflictKey::Username))
    );
    assert_eq!(
        public_register(&mut users, &s, "bob", "A@X.COM", "secret1", 3),
        Err(ServiceError::Conflict(ConflictKey::Email))
    );
    assert_eq!(users.users.len(), 1);
}

#[test]
fn registration_stores_trimmed_values_and_defaults() {
    let mut users = UsersJson { users: vec![] };
    let s = open_settings();
    assert_eq!(public_register(&mut users, &s, "  carol ", " c@y.org ", "longpass", 42), Ok(()));
    let u = &users.users[0];
    assert_eq!(u.username, "carol");
    assert_eq!(u.email, "c@y.org");
    assert_eq!(u.role, "user");
    assert_eq!(u.created_at, 42);
    assert_eq!(u.preferences.background.kind, "color");
    assert_eq!(u.preferences.background.value, "#05080f");
    assert!(u.images.is_empty());
    assert!(u.password_hash.starts_with("$2"));
    assert_ne!(u.password_hash, "longpass");
}

#[test]
fn registration_validation_errors() {
    let mut users = UsersJson { users: vec![] };
    let s = open_settings();
    assert_eq!(
        public_register(&mut users, &s, "ab", "a@x.com", "secret1", 1),
        Err(ServiceError::ValidationFailed(Field::Username))
    );
    assert_eq!(
        public_register(&mut users, &s, "bad name", "a@x.com", "secret1", 1),
        Err(ServiceError::ValidationFailed(Field::Username))
    );
    assert_eq!(
        public_register(&mut users, &s, &"x".repeat(33), "a@x.com", "secret1", 1),
        Err(ServiceError::ValidationFailed(Field::Username))
    );
    assert_eq!(
        public_register(&mut users, &s, "alice", "ax.com", "secret1", 1),
        Err(ServiceError::ValidationFailed(Field::Email))
    );
    assert_eq!(
        public_register(&mut users, &s, "alice", "a@xcom", "secret1", 1),
        Err(ServiceError::ValidationFailed(Field::Email))
    );
    assert_eq!(
        public_register(&mut users, &s, "alice", "a@x.com", "12345", 1),
        Err(ServiceError::ValidationFailed(Field::Password))
    );
    assert!(users.users.is_empty());
}

#[test]
fn registration_blocked_is_forbidden() {
    let mut users = UsersJson { users: vec![] };
    let s = SettingsJson { register_blocked: true };
    assert_eq!(
        public_register(&mut users, &s, "alice", "a@x.com", "secret1", 1),
        Err(ServiceError::AuthorizationDenied)
    );
    assert_eq!(ServiceError::AuthorizationDenied.status_code(), 403);
}

#[test]
fn admin_create_checks_actor_and_input() {
    let mut users = bootstrap_users("hash".to_string(), 0);
    assert_eq!(
        admin_users_create(&mut users, "bob", "newbie", "n@x", "secret1", 1),
        Err(ServiceError::AuthorizationDenied)
    );
    assert_eq!(
        admin_users_create(&mut users, "admin", " a ", "n@x", "secret1", 1),
        Err(ServiceError::ValidationFailed(Field::Username))
    );
    assert_eq!(
        admin_users_create(&mut users, "admin", "newbie", "nx", "secret1", 1),
        Err(ServiceError::ValidationFailed(Field::Email))
    );
    assert_eq!(admin_users_create(&mut users, "admin", "newbie", "n@x", "secret1", 1), Ok(()));
    assert_eq!(
        admin_users_create(&mut users, "admin", "other", "ADMIN@example.com", "secret1", 1),
        Err(ServiceError::Conflict(ConflictKey::Email))
    );
    assert_eq!(users.users.len(), 2);
    assert_eq!(ServiceError::Conflict(ConflictKey::Email).status_code(), 409);
}

#[test]
fn admin_delete_rules() {
    let mut users = bootstrap_users("hash".to_string(), 0);
    admin_users_create(&mut users, "admin", "victim", "v@x", "secret1", 1).unwrap();
    assert_eq!(admin_users_delete(&mut users, "victim", "victim"), Err(ServiceError::AuthorizationDenied));
    assert_eq!(
        admin_users_delete(&mut users, "admin", "admin"),
        Err(ServiceError::ValidationFailed(Field::Username))
    );
    assert_eq!(admin_users_delete(&mut users, "admin", "ghost"), Err(ServiceError::NotFound));
    assert_eq!(admin_users_delete(&mut users, "admin", "victim"), Ok(()));
    assert_eq!(users.users.len(), 1);
    assert_eq!(users.users[0].username, "admin");
}

#[test]
fn login_checks_bcrypt_hash() {
    let mut users = UsersJson { users: vec![] };
    public_register(&mut users, &open_settings(), "dave", "d@x.com", "hunter22", 0).unwrap();
    assert_eq!(check_login(&users, "dave", "hunter22"), Ok(0));
    assert_eq!(check_login(&users, "dave", "wrong"), Err(ServiceError::AuthenticationFailed));
    assert_eq!(check_login(&users, "nobody", "hunter22"), Err(ServiceError::AuthenticationFailed));
    assert_eq!(
        check_login(&users, "", "x"),
        Err(ServiceError::ValidationFailed(Field::Username))
    );
}

#[test]
fn email_update_rules() {
    let mut users = UsersJson { users: vec![] };
    let s = open_settings();
    public_register(&mut users, &s, "erin", "e@x.com", "secret1", 0).unwrap();
    public_register(&mut users, &s, "frank", "f@x.com", "secret1", 0).unwrap();
    assert_eq!(update_email(&mut users, "erin", "   "), Err(ServiceError::ValidationFailed(Field::Email)));
    assert_eq!(update_email(&mut users, "erin", "nope"), Err(ServiceError::ValidationFailed(Field::Email)));
    assert_eq!(
        update_email(&mut users, "erin", "F@X.com"),
        Err(ServiceError::Conflict(ConflictKey::Email))
    );
    assert_eq!(update_email(&mut users, "erin", " E@X.COM "), Ok("E@X.COM".to_string()));
    assert_eq!(users.users[0].email, "E@X.COM");
    assert_eq!(users.users[1].email, "f@x.com");
}

#[test]
fn lookups_by_name_and_email() {
    let users = bootstrap_users("h".to_string(), 7);
    assert_eq!(find_user(&users, "admin").unwrap().role, "admin");
    assert!(find_user(&users, "Admin").is_none());
    assert_eq!(find_user_by_email(&users, "  ADMIN@Example.com ").unwrap().username, "admin");
    assert!(find_user_by_email(&users, "   ").is_none());
    assert!(find_user_by_email(&users, "x@y").is_none());
}

#[test]
fn ascii_case_comparison() {
    assert!(eq_ignore_ascii_case("Hello", "hELLO"));
    assert!(!eq_ignore_ascii_case("Hello", "Hell"));
    assert!(!eq_ignore_ascii_case("a", "b"));
}

#[test]
fn register_lock_toggle() {
    assert!(decode_blocked(&BlockedValue::Bool(true)));
    assert!(!decode_blocked(&BlockedValue::Bool(false)));
    assert!(decode_blocked(&BlockedValue::Text("true".to_string())));
    assert!(!decode_blocked(&BlockedValue::Text("yes".to_string())));
    assert!(!decode_blocked(&BlockedValue::Other));
    let mut s = SettingsJson::new();
    assert_eq!(admin_register_set(&mut s, "bob", &BlockedValue::Bool(true)), Err(ServiceError::AuthorizationDenied));
    assert!(!s.register_blocked);
    assert_eq!(admin_register_set(&mut s, "admin", &BlockedValue::Text("true".to_string())), Ok(true));
    assert!(s.register_blocked);
    assert_eq!(admin_register_get(&s, "admin"), Ok(true));
    assert_eq!(admin_register_get(&s, "eve"), Err(ServiceError::AuthorizationDenied));
    assert_eq!(require_admin("admin"), Ok(()));
}

#[test]
fn bootstrap_and_normalize() {
    let mut users = bootstrap_users("h".to_string(), 9);
    assert_eq!(users.users[0].email, "admin@example.com");
    assert!(!normalize_preferences(&mut users));
    users.users[0].preferences.background.kind = String::new();
    assert!(normalize_preferences(&mut users));
    assert_eq!(users.users[0].preferences.background.kind, "color");
}

#[test]
fn find_user_mut_changes_in_place() {
    let mut users = bootstrap_users("h".to_string(), 0);
    adedge::store::find_user_mut(&mut users, "admin").unwrap().email = "root@x.org".to_string();
    assert_eq!(users.users[0].email, "root@x.org");
    assert!(adedge::store::find_user_mut(&mut users, "nobody").is_none());
}

#[test]
fn password_and_token_changes() {
    let mut users = UsersJson { users: vec![] };
    public_register(&mut users, &open_settings(), "gina", "g@x.com", "oldpass", 0).unwrap();
    assert_eq!(
        change_password(&mut users, "gina", None, "newpass"),
        Err(ServiceError::ValidationFailed(Field::Password))
    );
    assert_eq!(
        change_password(&mut users, "gina", Some("wrong"), "newpass"),
        Err(ServiceError::AuthenticationFailed)
    );
    assert_eq!(
        change_password(&mut users, "gina", Some("oldpass"), "short"),
        Err(ServiceError::ValidationFailed(Field::Password))
    );
    assert_eq!(
        change_password(&mut users, "ghost", Some("oldpass"), "newpass"),
        Err(ServiceError::NotFound)
    );
    assert_eq!(change_password(&mut users, "gina", Some("oldpass"), "newpass"), Ok(()));
    assert_eq!(check_login(&users, "gina", "newpass"), Ok(0));
    assert_eq!(check_login(&users, "gina", "oldpass"), Err(ServiceError::AuthenticationFailed));

    assert_eq!(
        change_upload_token(&users, "gina", Some("newpass"), "tiny"),
        Err(ServiceError::ValidationFailed(Field::UploadToken))
    );
    let hash = change_upload_token(&users, "gina", Some("newpass"), "uploadtoken").unwrap();
    assert!(bcrypt::verify("uploadtoken", &hash).unwrap());
}

#[test]
fn secret_change_steps() {
    let mut users = UsersJson { users: vec![] };
    public_register(&mut users, &open_settings(), "hank", "h@x.com", "oldpass", 0).unwrap();
    let stored = adedge::upload::stored_hash(&users, "hank");
    assert!(stored.is_some());
    assert_eq!(adedge::upload::stored_hash(&users, "nobody"), None);
    assert_eq!(
        adedge::upload::hash_new_secret(None, Some("oldpass"), "newpass", Field::Password),
        Err(ServiceError::NotFound)
    );
    assert_eq!(
        adedge::upload::hash_new_secret(stored.as_deref(), Some("oldpass"), "abc", Field::UploadToken),
        Err(ServiceError::ValidationFailed(Field::UploadToken))
    );
    let h = adedge::upload::hash_new_secret(stored.as_deref(), Some("oldpass"), "newpass", Field::Password)
        .unwrap();
    let email_before = users.users[0].email.clone();
    assert_eq!(adedge::upload::set_password_hash(&mut users, "hank", h), Ok(()));
    assert_eq!(users.users[0].email, email_before);
    assert_eq!(check_login(&users, "hank", "newpass"), Ok(0));
    assert_eq!(
        adedge::upload::set_password_hash(&mut users, "nobody", "x".to_string()),
        Err(ServiceError::NotFound)
    );
}
