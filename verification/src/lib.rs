//! An in-memory relational store for a guestbook backend: a `users` table and
//! a `guestbooks` table whose rows each belong to one user, together with the
//! create/read/update/delete and aggregation operations the HTTP layer exposes
//! over them. Every operation carries a contract that pins down its result and
//! its effect on the store.

pub mod guestbook;
pub mod laws;
pub mod store;
pub mod user;

pub use guestbook::Guestbook;
pub use guestbook::GuestbookWithUsername;
pub use guestbook::NewGuestbook;
pub use guestbook::UpdateGuestbook;
pub use store::Db;
pub use store::StoreError;
pub use user::NewUser;
pub use user::UpdateUser;
pub use user::User;
pub use user::UserWithGuestbookCount;
pub use user::UserWithGuestbooks;
