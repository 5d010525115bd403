use recipes::auth::Authenticated;
use recipes::auth::NoPermission;
use recipes::auth::SessionCheck;
use recipes::auth::User;
use recipes::auth::Users;
use recipes::auth::WritePermission;
use recipes::auth::user_from_request;
use recipes::error::Error;

fn registry_with(login: &str, password: &str, locked: bool) -> Users {
    let hash = bcrypt::hash(password, 4).unwrap();
    Users::load(vec![(
        login.to_string(),
        User { password: hash, locked, version: 0 },
    )])
}

#[test]
fn register_rejects_short_login_without_creating_a_record() {
    let mut users = Users::load(Vec::new());
    let r = users.register("abc".to_string(), "longenough".to_string());
    assert_eq!(r.unwrap_err(), Error::UserNameTooShort);
    assert!(users.list().is_empty());
}

#[test]
fn register_rejects_short_password_without_creating_a_record() {
    let mut users = Users::load(Vec::new());
    let r = users.register("admin".to_string(), "seven77".to_string());
    assert_eq!(r.unwrap_err(), Error::PasswordTooShort);
    assert!(users.list().is_empty());
}

#[test]
fn register_creates_a_locked_account_at_version_zero() {
    let mut users = Users::load(Vec::new());
    users.register("admin".to_string(), "adminadmin".to_string()).unwrap();
    let entries = users.list();
    assert_eq!(entries.len(), 1);
    let (login, user) = &entries[0];
    assert_eq!(login, "admin");
    assert!(user.locked);
    assert_eq!(user.version, 0);
    assert!(bcrypt::verify("adminadmin", &user.password).unwrap());
}

#[test]
fn register_rejects_a_taken_login() {
    let mut users = Users::load(Vec::new());
    users.register("admin".to_string(), "adminadmin".to_string()).unwrap();
    let r = users.register("admin".to_string(), "otherpassword".to_string());
    assert_eq!(r.unwrap_err(), Error::AlreadyExists);
    assert_eq!(users.list().len(), 1);
}

#[test]
fn login_succeeds_only_with_the_right_password_on_an_unlocked_account() {
    let users = registry_with("admin", "adminadmin", false);
    let info = users.login("admin", "adminadmin").unwrap();
    assert_eq!(info.user, "admin");
    assert_eq!(info.version, 0);
    assert_eq!(users.login("admin", "wrongpassword").unwrap_err(), Error::Unauthorized);
    assert_eq!(users.login("nobody", "adminadmin").unwrap_err(), Error::Unauthorized);
}

#[test]
fn login_fails_on_a_locked_account() {
    let users = registry_with("admin", "adminadmin", true);
    assert_eq!(users.login("admin", "adminadmin").unwrap_err(), Error::Unauthorized);
}

#[test]
fn invalidate_sessions_bumps_the_version_and_reissues_a_snapshot() {
    let mut users = registry_with("admin", "adminadmin", false);
    let old_snapshot = users.login("admin", "adminadmin").unwrap();
    assert!(users.check_authenticated("admin", old_snapshot.version).is_ok());

    let fresh = users.invalidate_sessions("admin").unwrap();
    assert_eq!(fresh.user, "admin");
    assert_eq!(fresh.version, old_snapshot.version + 1);

    // The pre-increment snapshot is dead; the reissued one is accepted.
    assert_eq!(
        users.check_authenticated("admin", old_snapshot.version).unwrap_err(),
        Error::Unauthorized
    );
    assert!(users.check_authenticated("admin", fresh.version).is_ok());
}

#[test]
fn invalidate_sessions_with_an_exhausted_counter_is_internal() {
    let mut users = Users::load(vec![(
        "admin".to_string(),
        User { password: "x".to_string(), locked: false, version: u32::MAX },
    )]);
    assert_eq!(users.invalidate_sessions("admin").unwrap_err(), Error::Internal);
    assert_eq!(users.list()[0].1.version, u32::MAX);
}

#[test]
fn invalidate_sessions_of_an_unknown_login_is_not_found() {
    let mut users = Users::load(Vec::new());
    assert_eq!(users.invalidate_sessions("ghost").unwrap_err(), Error::NotFound);
}

#[test]
fn check_authenticated_rejects_locked_accounts() {
    let users = registry_with("admin", "adminadmin", true);
    assert_eq!(users.check_authenticated("admin", 0).unwrap_err(), Error::Unauthorized);
}

#[test]
fn the_gate_resolves_read_and_write_capabilities() {
    let users = registry_with("admin", "adminadmin", false);

    let anon = user_from_request(&users, None, None);
    assert!(matches!(anon, SessionCheck::Anonymous));
    let no_version = user_from_request(&users, Some("admin".to_string()), None);
    assert!(matches!(no_version, SessionCheck::Anonymous));
    let valid = user_from_request(&users, Some("admin".to_string()), Some(0));
    assert!(matches!(valid, SessionCheck::Valid(login) if login == "admin"));
    let stale = user_from_request(&users, Some("admin".to_string()), Some(7));
    assert!(matches!(stale, SessionCheck::Stale));

    let read = NoPermission::from_user(None).unwrap();
    assert!(read.0.is_none());
    let read = NoPermission::from_user(Some("admin".to_string())).unwrap();
    assert_eq!(read.0.as_deref(), Some("admin"));
    assert!(WritePermission::from_user(None).is_none());
    let write = Authenticated(WritePermission::from_user(Some("admin".to_string())).unwrap());
    assert_eq!(write.0 .0, "admin");
}

#[test]
fn load_keeps_the_later_duplicate_login() {
    let users = Users::load(vec![
        ("admin".to_string(), User { password: "x".to_string(), locked: true, version: 1 }),
        ("admin".to_string(), User { password: "y".to_string(), locked: false, version: 2 }),
    ]);
    let entries = users.list();
    assert_eq!(entries.len(), 1);
    assert_eq!(entries[0].1.password, "y");
    assert_eq!(entries[0].1.version, 2);
}
