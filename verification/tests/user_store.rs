use authcore::users::{User, UserStore};
use authcore::AppError;

fn new_user(name: &str, email: &str) -> User {
    User { id: None, name: name.to_string(), email: email.to_string(), role: None }
}

#[test]
fn create_user_assigns_the_first_id() {
    let mut store = UserStore::new();
    let r = store.create_user(new_user("Test User", "test@example.com")).unwrap();
    assert_eq!(r.id, 1);
    assert_eq!(r.name, "Test User");
    assert_eq!(r.email, "test@example.com");
    assert_eq!(store.len(), 1);
}

#[test]
fn get_nonexistent_user_is_not_found() {
    let store = UserStore::new();
    let r = store.get_user_by_id(999);
    assert!(matches!(r, Err(AppError::NotFound)));
}

#[test]
fn create_and_get_user() {
    let mut store = UserStore::new();
    let created = store.create_user(new_user("Jane Doe", "jane@example.com")).unwrap();
    let fetched = store.get_user_by_id(created.id).unwrap();
    assert_eq!(fetched.id, created.id);
    assert_eq!(fetched.name, "Jane Doe");
    assert_eq!(fetched.email, "jane@example.com");
}

#[test]
fn invalid_email_is_rejected() {
    let mut store = UserStore::new();
    let r = store.create_user(new_user("Invalid User", "not-an-email"));
    match r {
        Err(AppError::BadRequest(m)) => assert_eq!(m, "Invalid email format"),
        _ => panic!("expected a bad-request error"),
    }
    assert_eq!(store.len(), 0);
}

#[test]
fn empty_fields_are_rejected_in_order() {
    let mut store = UserStore::new();
    match store.create_user(new_user("", "")) {
        Err(AppError::BadRequest(m)) => assert_eq!(m, "Name cannot be empty"),
        _ => panic!("expected a bad-request error"),
    }
    match store.create_user(new_user("A", "")) {
        Err(AppError::BadRequest(m)) => assert_eq!(m, "Email cannot be empty"),
        _ => panic!("expected a bad-request error"),
    }
}

#[test]
fn duplicate_email_is_rejected() {
    let mut store = UserStore::new();
    store.create_user(new_user("One", "same@example.com")).unwrap();
    match store.create_user(new_user("Two", "same@example.com")) {
        Err(AppError::BadRequest(m)) => assert_eq!(m, "Email already in use"),
        _ => panic!("expected a bad-request error"),
    }
    assert_eq!(store.len(), 1);
}

#[test]
fn list_users_keeps_creation_order() {
    let mut store = UserStore::new();
    store.create_user(new_user("A", "a@example.com")).unwrap();
    store.create_user(new_user("B", "b@example.com")).unwrap();
    let all = store.list_users();
    assert_eq!(all.len(), 2);
    assert_eq!(all[0].id, 1);
    assert_eq!(all[0].name, "A");
    assert_eq!(all[1].id, 2);
    assert_eq!(all[1].email, "b@example.com");
}

#[test]
fn admin_details_require_the_admin_token() {
    let mut store = UserStore::new();
    let created = store.create_user(new_user("Jane Doe", "jane@example.com")).unwrap();
    let r = store.admin_user_details(created.id, None);
    assert!(matches!(r, Err(AppError::Unauthorized)));
    let r = store.admin_user_details(created.id, Some("Bearer other"));
    assert!(matches!(r, Err(AppError::Forbidden)));
    let r = store.admin_user_details(999, Some("Bearer admin-token"));
    assert!(matches!(r, Err(AppError::NotFound)));
    let ok = store.admin_user_details(created.id, Some("Bearer admin-token")).unwrap();
    assert_eq!(ok.role, "user");
    assert_eq!(ok.created_at, "2024-03-10T12:00:00Z");
    assert_eq!(ok.last_login.as_deref(), Some("2024-03-10T12:30:00Z"));
}
