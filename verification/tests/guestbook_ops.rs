use guestbook_backend::guestbook::create_guestbook;
use guestbook_backend::guestbook::delete_guestbook;
use guestbook_backend::guestbook::get_guestbook;
use guestbook_backend::guestbook::list_guestbooks;
use guestbook_backend::guestbook::list_guestbooks_by_user;
use guestbook_backend::guestbook::update_guestbook;
use guestbook_backend::guestbook::NewGuestbook;
use guestbook_backend::guestbook::UpdateGuestbook;
use guestbook_backend::store::Db;
use guestbook_backend::store::StoreError;
use guestbook_backend::user::create_user;
use guestbook_backend::user::NewUser;

fn seed_user(db: &mut Db, username: &str) -> i32 {
    create_user(
        db,
        NewUser { username: username.to_string(), email: format!("{}@x.io", username) },
    )
    .unwrap()
    .id
}

fn seed_guestbook(db: &mut Db, message: &str, user_id: i32) -> i32 {
    create_guestbook(db, NewGuestbook { message: message.to_string(), user_id })
        .unwrap()
        .id
}

#[test]
fn post_then_list_shows_resolved_username() {
    // POST /users {username:"ada", email:"ada@x.io"} -> {id:1, ...}
    let mut db = Db::new();
    let user = create_user(
        &mut db,
        NewUser { username: "ada".to_string(), email: "ada@x.io".to_string() },
    )
    .unwrap();
    assert_eq!(user.id, 1);
    assert_eq!(user.username, "ada");
    assert_eq!(user.email, "ada@x.io");

    // POST /guestbooks {message:"hi", user_id:1} -> {id:1, message:"hi", user_id:1}
    let gb = create_guestbook(
        &mut db,
        NewGuestbook { message: "hi".to_string(), user_id: 1 },
    )
    .unwrap();
    assert_eq!(gb.id, 1);
    assert_eq!(gb.message, "hi");
    assert_eq!(gb.user_id, 1);

    // GET /guestbooks -> [{id:1, message:"hi", user_id:1, username:"ada"}]
    let rows = list_guestbooks(&db).unwrap();
    assert_eq!(rows.len(), 1);
    assert_eq!(rows[0].id, 1);
    assert_eq!(rows[0].message, "hi");
    assert_eq!(rows[0].user_id, 1);
    assert_eq!(rows[0].username, "ada");
}

#[test]
fn create_with_missing_user_succeeds_and_lists_sentinel() {
    let mut db = Db::new();
    seed_user(&mut db, "ada");
    // no user 42 exists, yet creation succeeds: the reference dangles
    let gb = create_guestbook(
        &mut db,
        NewGuestbook { message: "orphan".to_string(), user_id: 42 },
    )
    .unwrap();
    assert_eq!(gb.user_id, 42);

    let rows = list_guestbooks(&db).unwrap();
    assert_eq!(rows.len(), 1);
    assert_eq!(rows[0].message, "orphan");
    assert_eq!(rows[0].username, "Not found");
}

#[test]
fn list_preserves_table_order_and_resolves_each_row() {
    let mut db = Db::new();
    let ada = seed_user(&mut db, "ada");
    let bob = seed_user(&mut db, "bob");
    seed_guestbook(&mut db, "one", ada);
    seed_guestbook(&mut db, "two", 77);
    seed_guestbook(&mut db, "three", bob);

    let rows = list_guestbooks(&db).unwrap();
    let shown: Vec<(&str, &str)> =
        rows.iter().map(|r| (r.message.as_str(), r.username.as_str())).collect();
    assert_eq!(
        shown,
        vec![("one", "ada"), ("two", "Not found"), ("three", "bob")]
    );
}

#[test]
fn list_by_user_filters_and_allows_empty() {
    let mut db = Db::new();
    let ada = seed_user(&mut db, "ada");
    let bob = seed_user(&mut db, "bob");
    seed_guestbook(&mut db, "a1", ada);
    seed_guestbook(&mut db, "b1", bob);

    let adas = list_guestbooks_by_user(&db, ada).unwrap();
    assert_eq!(adas.len(), 1);
    assert_eq!(adas[0].message, "a1");
    assert!(list_guestbooks_by_user(&db, 999).unwrap().is_empty());
}

#[test]
fn get_resolves_username_strictly() {
    let mut db = Db::new();
    let ada = seed_user(&mut db, "ada");
    let id = seed_guestbook(&mut db, "hello", ada);

    let row = get_guestbook(&db, id).unwrap();
    assert_eq!(row.id, id);
    assert_eq!(row.message, "hello");
    assert_eq!(row.user_id, ada);
    assert_eq!(row.username, "ada");
}

#[test]
fn get_missing_row_is_persistence_error() {
    let db = Db::new();
    let err = get_guestbook(&db, 5).unwrap_err();
    assert_eq!(err, StoreError::Persistence);
    assert_eq!(err.status_code(), 500);
}

#[test]
fn get_dangling_row_fails_instead_of_substituting() {
    let mut db = Db::new();
    let id = seed_guestbook(&mut db, "orphan", 42);
    // the list endpoint substitutes a sentinel; the single-row endpoint fails
    let err = get_guestbook(&db, id).unwrap_err();
    assert_eq!(err, StoreError::Persistence);
}

#[test]
fn update_reparents_and_rewrites_message() {
    let mut db = Db::new();
    let ada = seed_user(&mut db, "ada");
    let bob = seed_user(&mut db, "bob");
    let id = seed_guestbook(&mut db, "hi", ada);

    let updated = update_guestbook(
        &mut db,
        id,
        UpdateGuestbook { message: "moved".to_string(), user_id: bob },
    )
    .unwrap();
    assert_eq!(updated.id, id);
    assert_eq!(updated.message, "moved");
    assert_eq!(updated.user_id, bob);

    let row = get_guestbook(&db, id).unwrap();
    assert_eq!(row.message, "moved");
    assert_eq!(row.username, "bob");
}

#[test]
fn update_to_missing_user_is_not_found_and_changes_nothing() {
    let mut db = Db::new();
    let ada = seed_user(&mut db, "ada");
    let id = seed_guestbook(&mut db, "hi", ada);

    let err = update_guestbook(
        &mut db,
        id,
        UpdateGuestbook { message: "clobbered".to_string(), user_id: 42 },
    )
    .unwrap_err();
    assert_eq!(err, StoreError::UserNotFound);
    assert_eq!(err.status_code(), 404);
    assert_eq!(err.message(), "User with this id is not found");

    // the stored row kept its message and owner
    let row = get_guestbook(&db, id).unwrap();
    assert_eq!(row.message, "hi");
    assert_eq!(row.user_id, ada);
}

#[test]
fn update_missing_row_with_existing_user_is_persistence_error() {
    let mut db = Db::new();
    let ada = seed_user(&mut db, "ada");
    let err = update_guestbook(
        &mut db,
        9,
        UpdateGuestbook { message: "x".to_string(), user_id: ada },
    )
    .unwrap_err();
    assert_eq!(err, StoreError::Persistence);
    assert_eq!(err.status_code(), 500);
    assert_eq!(err.message(), "persistence error");
}

#[test]
fn delete_removes_row_and_is_idempotent() {
    let mut db = Db::new();
    let ada = seed_user(&mut db, "ada");
    let id = seed_guestbook(&mut db, "bye", ada);

    delete_guestbook(&mut db, id).unwrap();
    assert!(get_guestbook(&db, id).is_err());
    assert!(list_guestbooks(&db).unwrap().is_empty());
    // deleting again still succeeds
    assert!(delete_guestbook(&mut db, id).is_ok());
}
