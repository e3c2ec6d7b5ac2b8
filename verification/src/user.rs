//! The users table: its row types and the operations over it, including the
//! aggregation that counts each user's guestbooks.

use vstd::multiset::Multiset;
use vstd::prelude::*;

use crate::guestbook::find_user_index;
use crate::guestbook::guestbook_count_of;
use crate::guestbook::guestbooks_of;
use crate::guestbook::guestbooks_without_user;
use crate::guestbook::lemma_guestbooks_of_push;
use crate::guestbook::lemma_guestbooks_without_user_distinct;
use crate::guestbook::lemma_guestbooks_without_user_ensures;
use crate::guestbook::lemma_guestbooks_without_user_push;
use crate::guestbook::Guestbook;
use crate::store::Db;
use crate::store::StoreError;

verus! {

/// A stored user row.
#[derive(Debug)]
pub struct User {
    pub id: i32,
    pub username: String,
    pub email: String,
}

impl Clone for User {
    fn clone(&self) -> (res: Self)
        ensures
            res == *self,
    {
        User { id: self.id, username: self.username.clone(), email: self.email.clone() }
    }
}

/// The body of a user creation request.
#[derive(Debug)]
pub struct NewUser {
    pub username: String,
    pub email: String,
}

/// The body of a user update request.
#[derive(Debug)]
pub struct UpdateUser {
    pub username: String,
    pub email: String,
}

/// A user together with all of their guestbook rows, in table order.
#[derive(Debug)]
pub struct UserWithGuestbooks {
    pub id: i32,
    pub username: String,
    pub email: String,
    pub guestbooks: Vec<Guestbook>,
}

/// One row of the per-user aggregation: the user and how many guestbooks
/// reference them.
#[derive(Debug)]
pub struct UserWithGuestbookCount {
    pub id: i32,
    pub username: String,
    pub guestbook_count: i64,
}

impl Clone for UserWithGuestbookCount {
    fn clone(&self) -> (res: Self)
        ensures
            res == *self,
    {
        UserWithGuestbookCount {
            id: self.id,
            username: self.username.clone(),
            guestbook_count: self.guestbook_count,
        }
    }
}

/// Whether some user row carries this id.
pub open spec fn has_user(users: Seq<User>, id: int) -> bool {
    exists|k: int| 0 <= k < users.len() && users[k].id == id
}

/// The index of the user row carrying this id. Meaningful when `has_user`
/// holds; under the store invariant the index is unique.
pub open spec fn user_ix(users: Seq<User>, id: int) -> int {
    choose|k: int| 0 <= k < users.len() && users[k].id == id
}

/// When row ids are pairwise distinct, the row found at some index carrying
/// the requested id is the row `user_ix` designates.
pub proof fn lemma_user_ix_is(users: Seq<User>, id: int, i: int)
    requires
        forall|a: int, b: int|
            0 <= a < b < users.len() ==> (#[trigger] users[a]).id != (#[trigger] users[b]).id,
        0 <= i < users.len(),
        users[i].id == id,
    ensures
        has_user(users, id),
        user_ix(users, id) == i,
{
    assert(has_user(users, id));
    let k = user_ix(users, id);
    assert(0 <= k < users.len() && users[k].id == id);
    if k < i {
        assert(users[k].id != users[i].id);
    }
    if i < k {
        assert(users[i].id != users[k].id);
    }
}

/// The username a guestbook listing shows for this user id: the user's
/// username when the user exists, the sentinel text otherwise.
pub open spec fn username_for(users: Seq<User>, user_id: int) -> Seq<char> {
    if has_user(users, user_id) {
        users[user_ix(users, user_id)].username@
    } else {
        "Not found"@
    }
}

/// The user rows other than the one carrying this id, in table order: what
/// deleting that user leaves behind.
pub open spec fn users_without(users: Seq<User>, id: int) -> Seq<User>
    decreases users.len(),
{
    if users.len() == 0 {
        Seq::empty()
    } else {
        let rest = users_without(users.drop_last(), id);
        if users.last().id == id {
            rest
        } else {
            rest.push(users.last())
        }
    }
}

pub proof fn lemma_users_without_push(users: Seq<User>, id: int, e: User)
    ensures
        users_without(users.push(e), id) == if e.id == id {
            users_without(users, id)
        } else {
            users_without(users, id).push(e)
        },
{
    assert(users.push(e).drop_last() =~= users);
    assert(users.push(e).last() == e);
}

/// Every row that a deletion keeps occurs in the original table, does not
/// carry the deleted id, and no rows were added.
pub proof fn lemma_users_without_ensures(users: Seq<User>, id: int)
    ensures
        users_without(users, id).len() <= users.len(),
        forall|j: int|
            0 <= j < users_without(users, id).len() ==> (#[trigger] users_without(users, id)[j]).id
                != id,
        forall|j: int|
            0 <= j < users_without(users, id).len() ==> users.contains(
                #[trigger] users_without(users, id)[j],
            ),
    decreases users.len(),
{
    if users.len() > 0 {
        lemma_users_without_ensures(users.drop_last(), id);
        let f = users_without(users, id);
        let fd = users_without(users.drop_last(), id);
        assert forall|j: int| 0 <= j < f.len() implies f[j].id != id && users.contains(f[j]) by {
            if j < fd.len() {
                assert(users.drop_last().contains(fd[j]));
                let k = choose|k: int|
                    0 <= k < users.drop_last().len() && users.drop_last()[k] == fd[j];
                assert(users[k] == fd[j]);
            } else {
                assert(f[j] == users.last());
                assert(users[users.len() - 1] == users.last());
            }
        }
    }
}

/// Deletion keeps ids pairwise distinct.
proof fn lemma_users_without_distinct(users: Seq<User>, id: int)
    requires
        forall|a: int, b: int|
            0 <= a < b < users.len() ==> (#[trigger] users[a]).id != (#[trigger] users[b]).id,
    ensures
        forall|a: int, b: int|
            0 <= a < b < users_without(users, id).len() ==> (#[trigger] users_without(
                users,
                id,
            )[a]).id != (#[trigger] users_without(users, id)[b]).id,
    decreases users.len(),
{
    if users.len() > 0 {
        lemma_users_without_distinct(users.drop_last(), id);
        lemma_users_without_ensures(users.drop_last(), id);
        let f = users_without(users, id);
        let fd = users_without(users.drop_last(), id);
        assert forall|a: int, b: int| 0 <= a < b < f.len() implies f[a].id != f[b].id by {
            if b < fd.len() {
                assert(fd[a].id != fd[b].id);
            } else {
                assert(f[a] == fd[a]);
                assert(users.drop_last().contains(fd[a]));
                let k = choose|k: int|
                    0 <= k < users.drop_last().len() && users.drop_last()[k] == fd[a];
                assert(users[k] == fd[a]);
                assert(users[k].id != users[users.len() - 1].id);
                assert(f[b] == users.last());
            }
        }
    }
}

/// Inserts a new user row with the next generated id and returns it. Fails
/// only when the id space is exhausted.
pub fn create_user(db: &mut Db, new_user: NewUser) -> (r: Result<User, StoreError>)
    requires
        old(db).wf(),
    ensures
        final(db).wf(),
        final(db).guestbooks@ == old(db).guestbooks@,
        final(db).next_guestbook_id == old(db).next_guestbook_id,
        old(db).next_user_id < i32::MAX ==> r is Ok,
        match r {
            Ok(u) => {
                &&& u.id == old(db).next_user_id
                &&& u.username == new_user.username
                &&& u.email == new_user.email
                &&& !has_user(old(db).users@, u.id as int)
                &&& final(db).users@ == old(db).users@.push(u)
                &&& final(db).next_user_id == old(db).next_user_id + 1
            },
            Err(e) => {
                &&& e is Persistence
                &&& old(db).next_user_id == i32::MAX
                &&& final(db).users@ == old(db).users@
                &&& final(db).next_user_id == old(db).next_user_id
            },
        },
{
    if db.next_user_id == i32::MAX {
        return Err(StoreError::Persistence);
    }
    let id = db.next_user_id;
    let row = User { id, username: new_user.username, email: new_user.email };
    let result = row.clone();
    proof {
        assert forall|k: int| 0 <= k < db.users@.len() implies (#[trigger] db.users@[k]).id
            != id as int by {}
    }
    db.users.push(row);
    db.next_user_id = id + 1;
    proof {
        let pre = old(db).users@;
        let post = db.users@;
        assert forall|i: int, j: int| 0 <= i < j < post.len() implies (#[trigger] post[i]).id != (
        #[trigger] post[j]).id by {
            if j < pre.len() {
                assert(pre[i].id != pre[j].id);
            } else {
                assert(post[j].id == id);
                assert(post[i] == pre[i]);
            }
        }
    }
    Ok(result)
}

/// One user together with all of their guestbooks, in table order. Fails when
/// the user does not exist, as a "first row" lookup over zero rows would.
pub fn user_with_guestbooks(db: &Db, id: i32) -> (r: Result<UserWithGuestbooks, StoreError>)
    requires
        db.wf(),
    ensures
        match r {
            Ok(uw) => {
                &&& has_user(db.users@, id as int)
                &&& uw.id == id
                &&& uw.username == db.users@[user_ix(db.users@, id as int)].username
                &&& uw.email == db.users@[user_ix(db.users@, id as int)].email
                &&& uw.guestbooks@ == guestbooks_of(db.guestbooks@, id as int)
            },
            Err(e) => {
                &&& e is Persistence
                &&& !has_user(db.users@, id as int)
            },
        },
{
    let ui = match find_user_index(&db.users, id) {
        Some(ui) => ui,
        None => {
            return Err(StoreError::Persistence);
        },
    };
    proof {
        lemma_user_ix_is(db.users@, id as int, ui as int);
    }
    let user = &db.users[ui];
    let mut rows: Vec<Guestbook> = Vec::new();
    let mut i: usize = 0;
    while i < db.guestbooks.len()
        invariant
            i <= db.guestbooks@.len(),
            rows@ == guestbooks_of(db.guestbooks@.take(i as int), id as int),
        decreases db.guestbooks@.len() - i,
    {
        proof {
            lemma_guestbooks_of_push(
                db.guestbooks@.take(i as int),
                id as int,
                db.guestbooks@[i as int],
            );
            assert(db.guestbooks@.take(i as int).push(db.guestbooks@[i as int]) =~= db.guestbooks@
                .take(i as int + 1));
        }
        if db.guestbooks[i].user_id == id {
            rows.push(db.guestbooks[i].clone());
        }
        i += 1;
    }
    proof {
        assert(db.guestbooks@.take(db.guestbooks@.len() as int) =~= db.guestbooks@);
    }
    Ok(
        UserWithGuestbooks {
            id: user.id,
            username: user.username.clone(),
            email: user.email.clone(),
            guestbooks: rows,
        },
    )
}

/// Rewrites a user's username and email and returns the updated row. Fails
/// when the id does not exist, as an update matching zero rows would.
pub fn update_user(db: &mut Db, id: i32, update: UpdateUser) -> (r: Result<User, StoreError>)
    requires
        old(db).wf(),
    ensures
        final(db).wf(),
        final(db).guestbooks@ == old(db).guestbooks@,
        final(db).next_user_id == old(db).next_user_id,
        final(db).next_guestbook_id == old(db).next_guestbook_id,
        match r {
            Ok(u) => {
                &&& has_user(old(db).users@, id as int)
                &&& u.id == id
                &&& u.username == update.username
                &&& u.email == update.email
                &&& final(db).users@ == old(db).users@.update(user_ix(old(db).users@, id as int), u)
            },
            Err(e) => {
                &&& e is Persistence
                &&& !has_user(old(db).users@, id as int)
                &&& final(db).users@ == old(db).users@
            },
        },
{
    let ui = match find_user_index(&db.users, id) {
        Some(ui) => ui,
        None => {
            return Err(StoreError::Persistence);
        },
    };
    proof {
        lemma_user_ix_is(db.users@, id as int, ui as int);
    }
    let updated = User { id, username: update.username, email: update.email };
    let result = updated.clone();
    let _removed = db.users.remove(ui);
    db.users.insert(ui, updated);
    proof {
        let pre = old(db).users@;
        let post = db.users@;
        assert(post =~= pre.update(ui as int, result));
        assert forall|i: int, j: int| 0 <= i < j < post.len() implies (#[trigger] post[i]).id != (
        #[trigger] post[j]).id by {
            assert(pre[i].id != pre[j].id);
            assert(post[i].id == pre[i].id);
            assert(post[j].id == pre[j].id);
        }
        assert forall|i: int| 0 <= i < post.len() implies 1 <= (#[trigger] post[i]).id
            < db.next_user_id by {
            assert(post[i].id == pre[i].id);
        }
    }
    Ok(result)
}

/// Deletes a user and, first, every guestbook that references them: the
/// cascade is performed here, not delegated to the store. Idempotent:
/// deleting an absent id succeeds and changes nothing.
pub fn delete_user(db: &mut Db, id: i32) -> (r: Result<(), StoreError>)
    requires
        old(db).wf(),
    ensures
        final(db).wf(),
        r is Ok,
        final(db).next_user_id == old(db).next_user_id,
        final(db).next_guestbook_id == old(db).next_guestbook_id,
        final(db).users@ == users_without(old(db).users@, id as int),
        final(db).guestbooks@ == guestbooks_without_user(old(db).guestbooks@, id as int),
{
    let mut kept_gbs: Vec<Guestbook> = Vec::new();
    let mut i: usize = 0;
    while i < db.guestbooks.len()
        invariant
            i <= db.guestbooks@.len(),
            db.guestbooks@ == old(db).guestbooks@,
            kept_gbs@ == guestbooks_without_user(db.guestbooks@.take(i as int), id as int),
        decreases db.guestbooks@.len() - i,
    {
        proof {
            lemma_guestbooks_without_user_push(
                db.guestbooks@.take(i as int),
                id as int,
                db.guestbooks@[i as int],
            );
            assert(db.guestbooks@.take(i as int).push(db.guestbooks@[i as int]) =~= db.guestbooks@
                .take(i as int + 1));
        }
        if db.guestbooks[i].user_id != id {
            kept_gbs.push(db.guestbooks[i].clone());
        }
        i += 1;
    }
    proof {
        assert(db.guestbooks@.take(db.guestbooks@.len() as int) =~= db.guestbooks@);
    }
    db.guestbooks = kept_gbs;

    let mut kept_users: Vec<User> = Vec::new();
    let mut j: usize = 0;
    while j < db.users.len()
        invariant
            j <= db.users@.len(),
            db.users@ == old(db).users@,
            kept_users@ == users_without(db.users@.take(j as int), id as int),
        decreases db.users@.len() - j,
    {
        proof {
            lemma_users_without_push(db.users@.take(j as int), id as int, db.users@[j as int]);
            assert(db.users@.take(j as int).push(db.users@[j as int]) =~= db.users@.take(
                j as int + 1,
            ));
        }
        if db.users[j].id != id {
            kept_users.push(db.users[j].clone());
        }
        j += 1;
    }
    proof {
        assert(db.users@.take(db.users@.len() as int) =~= db.users@);
    }
    db.users = kept_users;

    proof {
        let pre_users = old(db).users@;
        let post_users = db.users@;
        lemma_users_without_ensures(pre_users, id as int);
        lemma_users_without_distinct(pre_users, id as int);
        assert forall|k: int| 0 <= k < post_users.len() implies 1 <= (
        #[trigger] post_users[k]).id < db.next_user_id by {
            assert(pre_users.contains(post_users[k]));
            let w = choose|w: int| 0 <= w < pre_users.len() && pre_users[w] == post_users[k];
            assert(1 <= pre_users[w].id < old(db).next_user_id);
        }

        let pre_gbs = old(db).guestbooks@;
        let post_gbs = db.guestbooks@;
        lemma_guestbooks_without_user_ensures(pre_gbs, id as int);
        lemma_guestbooks_without_user_distinct(pre_gbs, id as int);
        assert forall|k: int| 0 <= k < post_gbs.len() implies 1 <= (#[trigger] post_gbs[k]).id
            < db.next_guestbook_id by {
            assert(pre_gbs.contains(post_gbs[k]));
            let w = choose|w: int| 0 <= w < pre_gbs.len() && pre_gbs[w] == post_gbs[k];
            assert(1 <= pre_gbs[w].id < old(db).next_guestbook_id);
        }
    }
    Ok(())
}


/// The identity a listing row shows for a user: the id and the username.
pub open spec fn user_key(u: User) -> (i32, String) {
    (u.id, u.username)
}

/// The identity carried by one aggregation row.
pub open spec fn row_key(r: UserWithGuestbookCount) -> (i32, String) {
    (r.id, r.username)
}

/// The multiset of user identities a users table holds.
pub open spec fn user_keys(users: Seq<User>) -> Multiset<(i32, String)>
    decreases users.len(),
{
    if users.len() == 0 {
        Multiset::empty()
    } else {
        user_keys(users.drop_last()).insert(user_key(users.last()))
    }
}

/// The multiset of user identities an aggregation listing holds.
pub open spec fn row_keys(rows: Seq<UserWithGuestbookCount>) -> Multiset<(i32, String)>
    decreases rows.len(),
{
    if rows.len() == 0 {
        Multiset::empty()
    } else {
        row_keys(rows.drop_last()).insert(row_key(rows.last()))
    }
}

/// Every row of the listing reports exactly the number of guestbook rows its
/// user owns.
pub open spec fn counts_ok(gbs: Seq<Guestbook>, rows: Seq<UserWithGuestbookCount>) -> bool {
    forall|j: int|
        0 <= j < rows.len() ==> (#[trigger] rows[j]).guestbook_count == guestbook_count_of(
            gbs,
            rows[j].id as int,
        )
}

/// The listing is ordered by guestbook count, highest first.
pub open spec fn sorted_desc(rows: Seq<UserWithGuestbookCount>) -> bool {
    forall|i: int, j: int|
        0 <= i < j < rows.len() ==> (#[trigger] rows[i]).guestbook_count >= (
        #[trigger] rows[j]).guestbook_count
}

/// What the full aggregation listing promises: every user appears exactly
/// once (zero-guestbook users included), each with their own count, ordered
/// by count descending. The order among tied counts is left open.
pub open spec fn counts_listing_ok(db: Db, rows: Seq<UserWithGuestbookCount>) -> bool {
    &&& rows.len() == db.users@.len()
    &&& row_keys(rows) == user_keys(db.users@)
    &&& counts_ok(db.guestbooks@, rows)
    &&& sorted_desc(rows)
}

/// What the single-row aggregation promises: empty exactly when there are no
/// users; otherwise one row naming an existing user, carrying that user's
/// count, which no user's count exceeds.
pub open spec fn most_listing_ok(db: Db, rows: Seq<UserWithGuestbookCount>) -> bool {
    &&& (db.users@.len() == 0 ==> rows.len() == 0)
    &&& (db.users@.len() > 0 ==> {
        &&& rows.len() == 1
        &&& user_keys(db.users@).count(row_key(rows[0])) > 0
        &&& rows[0].guestbook_count == guestbook_count_of(db.guestbooks@, rows[0].id as int)
        &&& forall|i: int|
            0 <= i < db.users@.len() ==> guestbook_count_of(
                db.guestbooks@,
                (#[trigger] db.users@[i]).id as int,
            ) <= rows[0].guestbook_count
    })
}

/// Inserting one element anywhere in a multiset is order-independent.
proof fn lemma_multiset_insert_comm<T>(m: Multiset<T>, a: T, b: T)
    ensures
        m.insert(a).insert(b) == m.insert(b).insert(a),
{
    broadcast use vstd::multiset::group_multiset_axioms;

    assert(m.insert(a).insert(b) =~= m.insert(b).insert(a));
}

pub proof fn lemma_row_keys_push(rows: Seq<UserWithGuestbookCount>, r: UserWithGuestbookCount)
    ensures
        row_keys(rows.push(r)) == row_keys(rows).insert(row_key(r)),
{
    assert(rows.push(r).drop_last() =~= rows);
    assert(rows.push(r).last() == r);
}

/// Inserting a row at any index adds exactly its key to the listing's
/// multiset of identities.
pub proof fn lemma_row_keys_insert(rows: Seq<UserWithGuestbookCount>, p: int, r: UserWithGuestbookCount)
    requires
        0 <= p <= rows.len(),
    ensures
        row_keys(rows.insert(p, r)) == row_keys(rows).insert(row_key(r)),
    decreases rows.len(),
{
    if p == rows.len() {
        assert(rows.insert(p, r) =~= rows.push(r));
        lemma_row_keys_push(rows, r);
    } else {
        let s = rows.insert(p, r);
        assert(s.last() == rows.last());
        assert(s.drop_last() =~= rows.drop_last().insert(p, r));
        lemma_row_keys_insert(rows.drop_last(), p, r);
        lemma_multiset_insert_comm(row_keys(rows.drop_last()), row_key(r), row_key(rows.last()));
    }
}

/// A listing whose rows carry, index by index, the same identities as the
/// users table holds the same multiset of identities.
pub proof fn lemma_keys_agree(users: Seq<User>, rows: Seq<UserWithGuestbookCount>)
    requires
        rows.len() == users.len(),
        forall|j: int| 0 <= j < rows.len() ==> row_key(#[trigger] rows[j]) == user_key(users[j]),
    ensures
        row_keys(rows) == user_keys(users),
    decreases rows.len(),
{
    if rows.len() > 0 {
        assert forall|j: int| 0 <= j < rows.drop_last().len() implies row_key(
            #[trigger] rows.drop_last()[j],
        ) == user_key(users.drop_last()[j]) by {
            assert(rows.drop_last()[j] == rows[j]);
            assert(users.drop_last()[j] == users[j]);
        }
        lemma_keys_agree(users.drop_last(), rows.drop_last());
        assert(row_key(rows.last()) == user_key(users.last()));
    }
}

/// The identity of each user occurs in the table's multiset of identities.
pub proof fn lemma_user_keys_count_at(users: Seq<User>, i: int)
    requires
        0 <= i < users.len(),
    ensures
        user_keys(users).count(user_key(users[i])) > 0,
    decreases users.len(),
{
    broadcast use vstd::multiset::group_multiset_axioms;

    if i == users.len() - 1 {
        assert(user_keys(users) == user_keys(users.drop_last()).insert(user_key(users.last())));
    } else {
        lemma_user_keys_count_at(users.drop_last(), i);
        assert(users.drop_last()[i] == users[i]);
    }
}

/// The identity of each listing row occurs in the listing's multiset of
/// identities.
pub proof fn lemma_row_keys_count_at(rows: Seq<UserWithGuestbookCount>, i: int)
    requires
        0 <= i < rows.len(),
    ensures
        row_keys(rows).count(row_key(rows[i])) > 0,
    decreases rows.len(),
{
    broadcast use vstd::multiset::group_multiset_axioms;

    if i == rows.len() - 1 {
        assert(row_keys(rows) == row_keys(rows.drop_last()).insert(row_key(rows.last())));
    } else {
        lemma_row_keys_count_at(rows.drop_last(), i);
        assert(rows.drop_last()[i] == rows[i]);
    }
}

/// An identity that occurs in the listing's multiset is carried by some row.
pub proof fn lemma_row_keys_contains(rows: Seq<UserWithGuestbookCount>, k: (i32, String))
    requires
        row_keys(rows).count(k) > 0,
    ensures
        exists|j: int| 0 <= j < rows.len() && row_key(#[trigger] rows[j]) == k,
    decreases rows.len(),
{
    broadcast use vstd::multiset::group_multiset_axioms;

    if rows.len() == 0 {
        assert(row_keys(rows).count(k) == 0);
    } else {
        if row_key(rows.last()) == k {
            assert(row_key(rows[rows.len() - 1]) == k);
        } else {
            assert(row_keys(rows.drop_last()).count(k) > 0);
            lemma_row_keys_contains(rows.drop_last(), k);
            let j = choose|j: int|
                0 <= j < rows.drop_last().len() && row_key(#[trigger] rows.drop_last()[j]) == k;
            assert(row_key(rows[j]) == k);
        }
    }
}

/// In a full aggregation listing of a well-formed store with at least one
/// user, no user's guestbook count exceeds the head row's count.
pub proof fn lemma_head_is_max(db: Db, rows: Seq<UserWithGuestbookCount>)
    requires
        db.wf(),
        counts_listing_ok(db, rows),
        db.users@.len() > 0,
    ensures
        rows.len() > 0,
        forall|i: int|
            0 <= i < db.users@.len() ==> guestbook_count_of(
                db.guestbooks@,
                (#[trigger] db.users@[i]).id as int,
            ) <= rows[0].guestbook_count,
{
    assert forall|i: int| 0 <= i < db.users@.len() implies guestbook_count_of(
        db.guestbooks@,
        (#[trigger] db.users@[i]).id as int,
    ) <= rows[0].guestbook_count by {
        lemma_user_keys_count_at(db.users@, i);
        assert(row_keys(rows).count(user_key(db.users@[i])) > 0);
        lemma_row_keys_contains(rows, user_key(db.users@[i]));
        let j = choose|j: int|
            0 <= j < rows.len() && row_key(#[trigger] rows[j]) == user_key(db.users@[i]);
        assert(rows[j].id == db.users@[i].id);
        assert(rows[j].guestbook_count == guestbook_count_of(db.guestbooks@, rows[j].id as int));
        if j > 0 {
            assert(rows[0].guestbook_count >= rows[j].guestbook_count);
        }
    }
}

/// How many guestbook rows belong to this user, counted in one pass.
fn count_for_user(gbs: &Vec<Guestbook>, user_id: i32) -> (c: i64)
    requires
        gbs@.len() <= i64::MAX,
    ensures
        c == guestbook_count_of(gbs@, user_id as int),
{
    let mut c: i64 = 0;
    let mut i: usize = 0;
    while i < gbs.len()
        invariant
            gbs@.len() <= i64::MAX,
            i <= gbs@.len(),
            0 <= c <= i,
            c == guestbook_count_of(gbs@.take(i as int), user_id as int),
        decreases gbs@.len() - i,
    {
        proof {
            lemma_guestbooks_of_push(gbs@.take(i as int), user_id as int, gbs@[i as int]);
            assert(gbs@.take(i as int).push(gbs@[i as int]) =~= gbs@.take(i as int + 1));
        }
        if gbs[i].user_id == user_id {
            c = c + 1;
        }
        i += 1;
    }
    proof {
        assert(gbs@.take(gbs@.len() as int) =~= gbs@);
    }
    c
}

/// The per-user aggregation: joins users to their guestbook counts (zero for
/// users with none) and orders the rows by count descending. Among equal
/// counts the order is the store's own and not specified.
pub fn list_users_with_guestbook_counts(db: &Db) -> (r: Result<
    Vec<UserWithGuestbookCount>,
    StoreError,
>)
    requires
        db.wf(),
    ensures
        match r {
            Ok(rows) => counts_listing_ok(*db, rows@),
            Err(_) => false,
        },
{
    let mut rows: Vec<UserWithGuestbookCount> = Vec::new();
    let mut i: usize = 0;
    while i < db.users.len()
        invariant
            db.wf(),
            i <= db.users@.len(),
            rows@.len() == i as int,
            forall|j: int| 0 <= j < i ==> row_key(#[trigger] rows@[j]) == user_key(db.users@[j]),
            counts_ok(db.guestbooks@, rows@),
        decreases db.users@.len() - i,
    {
        let u = &db.users[i];
        proof {
            assert(db.guestbooks@.len() < db.next_guestbook_id <= i32::MAX < i64::MAX);
        }
        let c = count_for_user(&db.guestbooks, u.id);
        let row = UserWithGuestbookCount {
            id: u.id,
            username: u.username.clone(),
            guestbook_count: c,
        };
        rows.push(row);
        proof {
            assert forall|j: int| 0 <= j < i + 1 implies row_key(#[trigger] rows@[j]) == user_key(
                db.users@[j],
            ) by {}
            assert forall|j: int| 0 <= j < rows@.len() implies (
            #[trigger] rows@[j]).guestbook_count == guestbook_count_of(
                db.guestbooks@,
                rows@[j].id as int,
            ) by {}
        }
        i += 1;
    }
    proof {
        lemma_keys_agree(db.users@, rows@);
    }

    let mut sorted_rows: Vec<UserWithGuestbookCount> = Vec::new();
    proof {
        broadcast use vstd::multiset::group_multiset_axioms;

        assert(row_keys(sorted_rows@).add(row_keys(rows@)) =~= row_keys(rows@));
    }
    while rows.len() > 0
        invariant
            db.wf(),
            sorted_desc(sorted_rows@),
            counts_ok(db.guestbooks@, sorted_rows@),
            counts_ok(db.guestbooks@, rows@),
            row_keys(sorted_rows@).add(row_keys(rows@)) == user_keys(db.users@),
            sorted_rows@.len() + rows@.len() == db.users@.len(),
        decreases rows@.len(),
    {
        let ghost rows_before = rows@;
        let ghost sorted_before = sorted_rows@;
        let row = rows.pop().unwrap();
        proof {
            assert(rows_before.drop_last() =~= rows@);
            assert(row == rows_before.last());
            assert(row_keys(rows_before) == row_keys(rows@).insert(row_key(row)));
            assert(row.guestbook_count == guestbook_count_of(db.guestbooks@, row.id as int));
            assert forall|j: int| 0 <= j < rows@.len() implies (
            #[trigger] rows@[j]).guestbook_count == guestbook_count_of(
                db.guestbooks@,
                rows@[j].id as int,
            ) by {
                assert(rows@[j] == rows_before[j]);
            }
        }
        let mut p: usize = 0;
        while p < sorted_rows.len() && sorted_rows[p].guestbook_count >= row.guestbook_count
            invariant
                p <= sorted_rows@.len(),
                forall|k: int|
                    0 <= k < p ==> (#[trigger] sorted_rows@[k]).guestbook_count
                        >= row.guestbook_count,
            decreases sorted_rows@.len() - p,
        {
            p += 1;
        }
        proof {
            lemma_row_keys_insert(sorted_rows@, p as int, row);
        }
        sorted_rows.insert(p, row);
        proof {
            broadcast use vstd::multiset::group_multiset_axioms;

            assert(row_keys(sorted_rows@) == row_keys(sorted_before).insert(row_key(row)));
            assert(row_keys(sorted_rows@).add(row_keys(rows@)) =~= row_keys(sorted_before).add(
                row_keys(rows_before),
            ));
            let s = sorted_rows@;
            assert forall|a: int, b: int| 0 <= a < b < s.len() implies (
            #[trigger] s[a]).guestbook_count >= (#[trigger] s[b]).guestbook_count by {
                if b < p {
                    assert(s[a] == sorted_before[a] && s[b] == sorted_before[b]);
                } else if a < p && b == p {
                    assert(s[a] == sorted_before[a]);
                    assert(s[b] == row);
                } else if a < p && b > p {
                    assert(s[a] == sorted_before[a] && s[b] == sorted_before[b - 1]);
                } else if a == p && b > p {
                    assert(s[a] == row && s[b] == sorted_before[b - 1]);
                    assert(sorted_before[p as int].guestbook_count < row.guestbook_count);
                    assert(sorted_before[p as int].guestbook_count >= sorted_before[b
                        - 1].guestbook_count);
                } else {
                    assert(s[a] == sorted_before[a - 1] && s[b] == sorted_before[b - 1]);
                }
            }
            assert forall|j: int| 0 <= j < s.len() implies (#[trigger] s[j]).guestbook_count
                == guestbook_count_of(db.guestbooks@, s[j].id as int) by {
                if j < p {
                    assert(s[j] == sorted_before[j]);
                } else if j == p {
                    assert(s[j] == row);
                } else {
                    assert(s[j] == sorted_before[j - 1]);
                }
            }
        }
    }
    proof {
        broadcast use vstd::multiset::group_multiset_axioms;

        assert(row_keys(rows@) =~= Multiset::<(i32, String)>::empty());
        assert(row_keys(sorted_rows@).add(row_keys(rows@)) =~= row_keys(sorted_rows@));
    }
    Ok(sorted_rows)
}

/// The same aggregation limited to its first row: the user with the most
/// guestbooks, or an empty listing when there are no users at all.
pub fn user_with_most_guestbooks(db: &Db) -> (r: Result<Vec<UserWithGuestbookCount>, StoreError>)
    requires
        db.wf(),
    ensures
        match r {
            Ok(rows) => most_listing_ok(*db, rows@),
            Err(_) => false,
        },
{
    let mut rows = match list_users_with_guestbook_counts(db) {
        Ok(rows) => rows,
        Err(e) => {
            return Err(e);
        },
    };
    let ghost full = rows@;
    rows.truncate(1);
    proof {
        if db.users@.len() > 0 {
            lemma_head_is_max(*db, full);
            assert(rows@ =~= full.subrange(0, 1));
            assert(rows@[0] == full[0]);
            lemma_row_keys_count_at(full, 0);
            assert(user_keys(db.users@).count(row_key(full[0])) > 0);
        }
    }
    Ok(rows)
}


} // verus!
