use guestbook_backend::guestbook::create_guestbook;
use guestbook_backend::guestbook::list_guestbooks_by_user;
use guestbook_backend::store::Db;
use guestbook_backend::store::StoreError;
use guestbook_backend::user::create_user;
use guestbook_backend::user::delete_user;
use guestbook_backend::user::list_users_with_guestbook_counts;
use guestbook_backend::user::update_user;
use guestbook_backend::user::user_with_guestbooks;
use guestbook_backend::user::user_with_most_guestbooks;
use guestbook_backend::user::NewUser;
use guestbook_backend::user::UpdateUser;
use guestbook_backend::guestbook::NewGuestbook;

fn add_user(db: &mut Db, username: &str, email: &str) -> i32 {
    create_user(
        db,
        NewUser { username: username.to_string(), email: email.to_string() },
    )
    .unwrap()
    .id
}

fn add_guestbook(db: &mut Db, message: &str, user_id: i32) -> i32 {
    create_guestbook(db, NewGuestbook { message: message.to_string(), user_id })
        .unwrap()
        .id
}

#[test]
fn create_then_fetch_returns_same_user() {
    let mut db = Db::new();
    let created = create_user(
        &mut db,
        NewUser { username: "ada".to_string(), email: "ada@x.io".to_string() },
    )
    .unwrap();
    assert_eq!(created.id, 1);
    assert_eq!(created.username, "ada");
    assert_eq!(created.email, "ada@x.io");

    let fetched = user_with_guestbooks(&db, created.id).unwrap();
    assert_eq!(fetched.id, created.id);
    assert_eq!(fetched.username, "ada");
    assert_eq!(fetched.email, "ada@x.io");
    assert!(fetched.guestbooks.is_empty());
}

#[test]
fn created_ids_are_fresh_and_sequential() {
    let mut db = Db::new();
    assert_eq!(add_user(&mut db, "a", "a@x"), 1);
    assert_eq!(add_user(&mut db, "b", "b@x"), 2);
    delete_user(&mut db, 2).unwrap();
    // the counter never reuses a deleted id
    assert_eq!(add_user(&mut db, "c", "c@x"), 3);
}

#[test]
fn fetch_missing_user_is_persistence_error() {
    let db = Db::new();
    let err = user_with_guestbooks(&db, 7).unwrap_err();
    assert_eq!(err, StoreError::Persistence);
    assert_eq!(err.status_code(), 500);
}

#[test]
fn fetch_returns_only_that_users_guestbooks_in_order() {
    let mut db = Db::new();
    let ada = add_user(&mut db, "ada", "ada@x");
    let bob = add_user(&mut db, "bob", "bob@x");
    add_guestbook(&mut db, "first", ada);
    add_guestbook(&mut db, "from bob", bob);
    add_guestbook(&mut db, "second", ada);

    let fetched = user_with_guestbooks(&db, ada).unwrap();
    let messages: Vec<&str> = fetched.guestbooks.iter().map(|g| g.message.as_str()).collect();
    assert_eq!(messages, vec!["first", "second"]);
    assert!(fetched.guestbooks.iter().all(|g| g.user_id == ada));
}

#[test]
fn update_user_rewrites_fields_and_keeps_id() {
    let mut db = Db::new();
    let id = add_user(&mut db, "ada", "ada@x");
    let updated = update_user(
        &mut db,
        id,
        UpdateUser { username: "lovelace".to_string(), email: "l@x".to_string() },
    )
    .unwrap();
    assert_eq!(updated.id, id);
    assert_eq!(updated.username, "lovelace");
    assert_eq!(updated.email, "l@x");

    let fetched = user_with_guestbooks(&db, id).unwrap();
    assert_eq!(fetched.username, "lovelace");
    assert_eq!(fetched.email, "l@x");
    // still exactly one user
    assert_eq!(list_users_with_guestbook_counts(&db).unwrap().len(), 1);
}

#[test]
fn update_missing_user_is_persistence_error() {
    let mut db = Db::new();
    add_user(&mut db, "ada", "ada@x");
    let err = update_user(
        &mut db,
        99,
        UpdateUser { username: "x".to_string(), email: "y".to_string() },
    )
    .unwrap_err();
    assert_eq!(err, StoreError::Persistence);
    // nothing changed
    let fetched = user_with_guestbooks(&db, 1).unwrap();
    assert_eq!(fetched.username, "ada");
}

#[test]
fn delete_user_cascades_to_their_guestbooks() {
    let mut db = Db::new();
    let ada = add_user(&mut db, "ada", "ada@x");
    let bob = add_user(&mut db, "bob", "bob@x");
    add_guestbook(&mut db, "a1", ada);
    add_guestbook(&mut db, "b1", bob);
    add_guestbook(&mut db, "a2", ada);

    delete_user(&mut db, ada).unwrap();

    assert!(list_guestbooks_by_user(&db, ada).unwrap().is_empty());
    assert!(user_with_guestbooks(&db, ada).is_err());
    // the other user's rows survive
    let bobs = list_guestbooks_by_user(&db, bob).unwrap();
    assert_eq!(bobs.len(), 1);
    assert_eq!(bobs[0].message, "b1");
}

#[test]
fn delete_missing_user_succeeds() {
    let mut db = Db::new();
    add_user(&mut db, "ada", "ada@x");
    assert!(delete_user(&mut db, 42).is_ok());
    assert_eq!(list_users_with_guestbook_counts(&db).unwrap().len(), 1);
}

#[test]
fn counts_listing_has_every_user_once_sorted_descending() {
    let mut db = Db::new();
    let ada = add_user(&mut db, "ada", "ada@x");
    let bob = add_user(&mut db, "bob", "bob@x");
    let eve = add_user(&mut db, "eve", "eve@x");
    add_guestbook(&mut db, "a1", ada);
    add_guestbook(&mut db, "a2", ada);
    add_guestbook(&mut db, "e1", eve);
    add_guestbook(&mut db, "e2", eve);
    add_guestbook(&mut db, "e3", eve);

    let rows = list_users_with_guestbook_counts(&db).unwrap();
    assert_eq!(rows.len(), 3);
    // sorted by count descending
    assert_eq!(rows[0].username, "eve");
    assert_eq!(rows[0].guestbook_count, 3);
    assert_eq!(rows[1].username, "ada");
    assert_eq!(rows[1].guestbook_count, 2);
    // a user with zero guestbooks still appears, with count 0
    assert_eq!(rows[2].username, "bob");
    assert_eq!(rows[2].id, bob);
    assert_eq!(rows[2].guestbook_count, 0);
}

#[test]
fn counts_listing_counts_dangling_rows_for_no_one() {
    let mut db = Db::new();
    add_user(&mut db, "ada", "ada@x");
    add_guestbook(&mut db, "dangling", 99);
    let rows = list_users_with_guestbook_counts(&db).unwrap();
    assert_eq!(rows.len(), 1);
    assert_eq!(rows[0].guestbook_count, 0);
}

#[test]
fn most_guestbooks_matches_listing_head() {
    let mut db = Db::new();
    let ada = add_user(&mut db, "ada", "ada@x");
    add_user(&mut db, "bob", "bob@x");
    add_guestbook(&mut db, "a1", ada);
    add_guestbook(&mut db, "a2", ada);

    let most = user_with_most_guestbooks(&db).unwrap();
    let full = list_users_with_guestbook_counts(&db).unwrap();
    assert_eq!(most.len(), 1);
    assert_eq!(most[0].id, full[0].id);
    assert_eq!(most[0].username, full[0].username);
    assert_eq!(most[0].guestbook_count, full[0].guestbook_count);
    assert_eq!(most[0].username, "ada");
    assert_eq!(most[0].guestbook_count, 2);
}

#[test]
fn most_guestbooks_is_empty_without_users() {
    let db = Db::new();
    assert!(user_with_most_guestbooks(&db).unwrap().is_empty());
    assert!(list_users_with_guestbook_counts(&db).unwrap().is_empty());
}

#[test]
fn most_with_tied_counts_still_returns_one_top_row() {
    let mut db = Db::new();
    let ada = add_user(&mut db, "ada", "ada@x");
    let bob = add_user(&mut db, "bob", "bob@x");
    add_guestbook(&mut db, "a1", ada);
    add_guestbook(&mut db, "b1", bob);

    let most = user_with_most_guestbooks(&db).unwrap();
    let full = list_users_with_guestbook_counts(&db).unwrap();
    assert_eq!(most.len(), 1);
    assert_eq!(most[0].guestbook_count, 1);
    // the tie leaves the choice open, but it must be the head of the full list
    assert_eq!(most[0].id, full[0].id);
    assert!(most[0].id == ada || most[0].id == bob);
}
