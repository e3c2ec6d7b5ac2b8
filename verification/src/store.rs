//! The store itself: both tables, the id counters that stand in for the
//! database's serial columns, and the error taxonomy of the backend.

use vstd::prelude::*;

use crate::guestbook::Guestbook;
use crate::user::User;

verus! {

/// How a store operation fails.
///
/// `Persistence` stands for any failure of the underlying store, including a
/// lookup that matched zero rows where one was required; the HTTP layer maps
/// it to status 500. `UserNotFound` is raised only by the guestbook update
/// path, which checks that the target user exists before touching the row;
/// the HTTP layer maps it to status 404.
#[derive(Clone, Copy, Debug, PartialEq, Eq, Structural)]
pub enum StoreError {
    Persistence,
    UserNotFound,
}

impl StoreError {
    /// The HTTP status code this error is reported with.
    pub fn status_code(&self) -> (code: u16)
        ensures
            code == (if self is UserNotFound { 404u16 } else { 500u16 }),
    {
        match self {
            StoreError::Persistence => 500,
            StoreError::UserNotFound => 404,
        }
    }

    /// The plain-text message this error is reported with.
    pub fn message(&self) -> (msg: String)
        ensures
            self is UserNotFound ==> msg@ == "User with this id is not found"@,
            self is Persistence ==> msg@ == "persistence error"@,
    {
        match self {
            StoreError::Persistence => "persistence error".to_owned(),
            StoreError::UserNotFound => "User with this id is not found".to_owned(),
        }
    }
}

/// The whole store: every user row, every guestbook row, and the next id each
/// table will hand out.
pub struct Db {
    pub users: Vec<User>,
    pub guestbooks: Vec<Guestbook>,
    pub next_user_id: i32,
    pub next_guestbook_id: i32,
}

impl Db {
    /// Well-formedness of the users table: ids are unique, positive, below the
    /// next id to be handed out, and (a consequence kept explicit) there are
    /// fewer rows than ids already handed out.
    pub open spec fn users_ok(self) -> bool {
        &&& 1 <= self.next_user_id
        &&& forall|i: int|
            0 <= i < self.users@.len() ==> 1 <= (#[trigger] self.users@[i]).id < self.next_user_id
        &&& forall|i: int, j: int|
            0 <= i < j < self.users@.len() ==> (#[trigger] self.users@[i]).id != (
            #[trigger] self.users@[j]).id
        &&& self.users@.len() < self.next_user_id
    }

    /// Well-formedness of the guestbooks table, in the same shape. Note that a
    /// guestbook's `user_id` need not reference an existing user: creation
    /// does not validate the reference, so dangling rows are legal states.
    pub open spec fn guestbooks_ok(self) -> bool {
        &&& 1 <= self.next_guestbook_id
        &&& forall|i: int|
            0 <= i < self.guestbooks@.len() ==> 1 <= (
            #[trigger] self.guestbooks@[i]).id < self.next_guestbook_id
        &&& forall|i: int, j: int|
            0 <= i < j < self.guestbooks@.len() ==> (#[trigger] self.guestbooks@[i]).id != (
            #[trigger] self.guestbooks@[j]).id
        &&& self.guestbooks@.len() < self.next_guestbook_id
    }

    /// The store invariant: both tables are well formed. Constructors
    /// establish it and every operation preserves it.
    pub open spec fn wf(self) -> bool {
        self.users_ok() && self.guestbooks_ok()
    }

    /// An empty store, as a fresh database would be: no rows, and both serial
    /// counters about to hand out id 1.
    pub fn new() -> (db: Db)
        ensures
            db.wf(),
            db.users@ == Seq::<User>::empty(),
            db.guestbooks@ == Seq::<Guestbook>::empty(),
            db.next_user_id == 1,
            db.next_guestbook_id == 1,
    {
        Db { users: Vec::new(), guestbooks: Vec::new(), next_user_id: 1, next_guestbook_id: 1 }
    }
}

} // verus!
