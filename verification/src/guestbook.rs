//! The guestbooks table: its row types and the operations over it, including
//! the in-memory join that resolves each row's username.

use vstd::prelude::*;

use crate::store::Db;
use crate::store::StoreError;
use crate::user::has_user;
use crate::user::lemma_user_ix_is;
use crate::user::username_for;
use crate::user::User;

verus! {

/// A stored guestbook row. `user_id` names the user it belongs to; the
/// reference may dangle, since creation does not validate it.
#[derive(Debug)]
pub struct Guestbook {
    pub id: i32,
    pub message: String,
    pub user_id: i32,
}

impl Clone for Guestbook {
    fn clone(&self) -> (res: Self)
        ensures
            res == *self,
    {
        Guestbook { id: self.id, message: self.message.clone(), user_id: self.user_id }
    }
}

/// The body of a guestbook creation request.
#[derive(Debug)]
pub struct NewGuestbook {
    pub message: String,
    pub user_id: i32,
}

/// The body of a guestbook update request.
#[derive(Debug)]
pub struct UpdateGuestbook {
    pub message: String,
    pub user_id: i32,
}

/// A guestbook row with its author's username resolved, or the sentinel
/// `"Not found"` when the referenced user does not exist.
#[derive(Debug)]
pub struct GuestbookWithUsername {
    pub id: i32,
    pub message: String,
    pub user_id: i32,
    pub username: String,
}

/// Whether some guestbook row carries this id.
pub open spec fn has_guestbook(gbs: Seq<Guestbook>, id: int) -> bool {
    exists|k: int| 0 <= k < gbs.len() && gbs[k].id == id
}

/// The index of the guestbook row carrying this id. Meaningful when
/// `has_guestbook` holds; under the store invariant the index is unique.
pub open spec fn guestbook_ix(gbs: Seq<Guestbook>, id: int) -> int {
    choose|k: int| 0 <= k < gbs.len() && gbs[k].id == id
}

/// When row ids are pairwise distinct, the row found at some index carrying
/// the requested id is the row `guestbook_ix` designates.
pub proof fn lemma_guestbook_ix_is(gbs: Seq<Guestbook>, id: int, i: int)
    requires
        forall|a: int, b: int|
            0 <= a < b < gbs.len() ==> (#[trigger] gbs[a]).id != (#[trigger] gbs[b]).id,
        0 <= i < gbs.len(),
        gbs[i].id == id,
    ensures
        has_guestbook(gbs, id),
        guestbook_ix(gbs, id) == i,
{
    assert(has_guestbook(gbs, id));
    let k = guestbook_ix(gbs, id);
    assert(0 <= k < gbs.len() && gbs[k].id == id);
    if k < i {
        assert(gbs[k].id != gbs[i].id);
    }
    if i < k {
        assert(gbs[i].id != gbs[k].id);
    }
}

/// The guestbook rows that belong to this user, in table order.
pub open spec fn guestbooks_of(gbs: Seq<Guestbook>, user_id: int) -> Seq<Guestbook>
    decreases gbs.len(),
{
    if gbs.len() == 0 {
        Seq::empty()
    } else {
        let rest = guestbooks_of(gbs.drop_last(), user_id);
        if gbs.last().user_id == user_id {
            rest.push(gbs.last())
        } else {
            rest
        }
    }
}

/// How many guestbook rows belong to this user.
pub open spec fn guestbook_count_of(gbs: Seq<Guestbook>, user_id: int) -> int {
    guestbooks_of(gbs, user_id).len() as int
}

/// The guestbook rows whose owner is not this user, in table order: what a
/// cascade delete of that user leaves behind.
pub open spec fn guestbooks_without_user(gbs: Seq<Guestbook>, user_id: int) -> Seq<Guestbook>
    decreases gbs.len(),
{
    if gbs.len() == 0 {
        Seq::empty()
    } else {
        let rest = guestbooks_without_user(gbs.drop_last(), user_id);
        if gbs.last().user_id == user_id {
            rest
        } else {
            rest.push(gbs.last())
        }
    }
}

/// The guestbook rows other than the one carrying this id, in table order.
pub open spec fn guestbooks_without(gbs: Seq<Guestbook>, id: int) -> Seq<Guestbook>
    decreases gbs.len(),
{
    if gbs.len() == 0 {
        Seq::empty()
    } else {
        let rest = guestbooks_without(gbs.drop_last(), id);
        if gbs.last().id == id {
            rest
        } else {
            rest.push(gbs.last())
        }
    }
}

pub proof fn lemma_guestbooks_of_push(gbs: Seq<Guestbook>, user_id: int, e: Guestbook)
    ensures
        guestbooks_of(gbs.push(e), user_id) == if e.user_id == user_id {
            guestbooks_of(gbs, user_id).push(e)
        } else {
            guestbooks_of(gbs, user_id)
        },
{
    assert(gbs.push(e).drop_last() =~= gbs);
    assert(gbs.push(e).last() == e);
}

pub proof fn lemma_guestbooks_without_user_push(gbs: Seq<Guestbook>, user_id: int, e: Guestbook)
    ensures
        guestbooks_without_user(gbs.push(e), user_id) == if e.user_id == user_id {
            guestbooks_without_user(gbs, user_id)
        } else {
            guestbooks_without_user(gbs, user_id).push(e)
        },
{
    assert(gbs.push(e).drop_last() =~= gbs);
    assert(gbs.push(e).last() == e);
}

pub proof fn lemma_guestbooks_without_push(gbs: Seq<Guestbook>, id: int, e: Guestbook)
    ensures
        guestbooks_without(gbs.push(e), id) == if e.id == id {
            guestbooks_without(gbs, id)
        } else {
            guestbooks_without(gbs, id).push(e)
        },
{
    assert(gbs.push(e).drop_last() =~= gbs);
    assert(gbs.push(e).last() == e);
}

/// Every row that a cascade delete keeps occurs in the original table, its
/// owner is not the deleted user, and no rows were added.
pub proof fn lemma_guestbooks_without_user_ensures(gbs: Seq<Guestbook>, user_id: int)
    ensures
        guestbooks_without_user(gbs, user_id).len() <= gbs.len(),
        forall|j: int|
            0 <= j < guestbooks_without_user(gbs, user_id).len() ==> (#[trigger] guestbooks_without_user(
                gbs,
                user_id,
            )[j]).user_id != user_id,
        forall|j: int|
            0 <= j < guestbooks_without_user(gbs, user_id).len() ==> gbs.contains(
                #[trigger] guestbooks_without_user(gbs, user_id)[j],
            ),
    decreases gbs.len(),
{
    if gbs.len() > 0 {
        lemma_guestbooks_without_user_ensures(gbs.drop_last(), user_id);
        let f = guestbooks_without_user(gbs, user_id);
        let fd = guestbooks_without_user(gbs.drop_last(), user_id);
        assert forall|j: int| 0 <= j < f.len() implies f[j].user_id != user_id && gbs.contains(
            f[j],
        ) by {
            if j < fd.len() {
                assert(gbs.drop_last().contains(fd[j]));
                let k = choose|k: int|
                    0 <= k < gbs.drop_last().len() && gbs.drop_last()[k] == fd[j];
                assert(gbs[k] == fd[j]);
            } else {
                assert(f[j] == gbs.last());
                assert(gbs[gbs.len() - 1] == gbs.last());
            }
        }
    }
}

/// Like `lemma_guestbooks_without_user_ensures`, for deletion by row id.
pub proof fn lemma_guestbooks_without_ensures(gbs: Seq<Guestbook>, id: int)
    ensures
        guestbooks_without(gbs, id).len() <= gbs.len(),
        forall|j: int|
            0 <= j < guestbooks_without(gbs, id).len() ==> (#[trigger] guestbooks_without(
                gbs,
                id,
            )[j]).id != id,
        forall|j: int|
            0 <= j < guestbooks_without(gbs, id).len() ==> gbs.contains(
                #[trigger] guestbooks_without(gbs, id)[j],
            ),
    decreases gbs.len(),
{
    if gbs.len() > 0 {
        lemma_guestbooks_without_ensures(gbs.drop_last(), id);
        let f = guestbooks_without(gbs, id);
        let fd = guestbooks_without(gbs.drop_last(), id);
        assert forall|j: int| 0 <= j < f.len() implies f[j].id != id && gbs.contains(f[j]) by {
            if j < fd.len() {
                assert(gbs.drop_last().contains(fd[j]));
                let k = choose|k: int|
                    0 <= k < gbs.drop_last().len() && gbs.drop_last()[k] == fd[j];
                assert(gbs[k] == fd[j]);
            } else {
                assert(f[j] == gbs.last());
                assert(gbs[gbs.len() - 1] == gbs.last());
            }
        }
    }
}

/// A table of rows that none of which belong to this user has no rows of that
/// user: filtering it for the user yields the empty sequence.
pub proof fn lemma_guestbooks_of_none(gbs: Seq<Guestbook>, user_id: int)
    requires
        forall|i: int| 0 <= i < gbs.len() ==> (#[trigger] gbs[i]).user_id != user_id,
    ensures
        guestbooks_of(gbs, user_id) == Seq::<Guestbook>::empty(),
    decreases gbs.len(),
{
    if gbs.len() == 0 {
        assert(guestbooks_of(gbs, user_id) =~= Seq::<Guestbook>::empty());
    } else {
        lemma_guestbooks_of_none(gbs.drop_last(), user_id);
        assert(gbs[gbs.len() - 1].user_id != user_id);
    }
}

/// The row at each index of the joined listing matches the guestbook at the
/// same index, with its username resolved against the users table.
pub open spec fn joined_row_ok(users: Seq<User>, g: Guestbook, row: GuestbookWithUsername) -> bool {
    &&& row.id == g.id
    &&& row.message == g.message
    &&& row.user_id == g.user_id
    &&& row.username@ == username_for(users, g.user_id as int)
}

/// The index of the first guestbook row carrying this id, if any.
fn find_guestbook_index(gbs: &Vec<Guestbook>, id: i32) -> (r: Option<usize>)
    ensures
        match r {
            Some(i) => i < gbs@.len() && gbs@[i as int].id == id,
            None => !has_guestbook(gbs@, id as int),
        },
{
    let mut i: usize = 0;
    while i < gbs.len()
        invariant
            i <= gbs@.len(),
            forall|k: int| 0 <= k < i ==> (#[trigger] gbs@[k]).id != id,
        decreases gbs@.len() - i,
    {
        if gbs[i].id == id {
            return Some(i);
        }
        i += 1;
    }
    None
}

/// The index of the first user row carrying this id, if any.
pub(crate) fn find_user_index(users: &Vec<User>, id: i32) -> (r: Option<usize>)
    ensures
        match r {
            Some(i) => i < users@.len() && users@[i as int].id == id,
            None => !has_user(users@, id as int),
        },
{
    let mut i: usize = 0;
    while i < users.len()
        invariant
            i <= users@.len(),
            forall|k: int| 0 <= k < i ==> (#[trigger] users@[k]).id != id,
        decreases users@.len() - i,
    {
        if users[i].id == id {
            return Some(i);
        }
        i += 1;
    }
    None
}

/// Inserts a new guestbook row with the next generated id. The referenced
/// `user_id` is deliberately not validated: creation may produce a dangling
/// reference, matching the asymmetry with the update path. Fails only when
/// the id space is exhausted.
pub fn create_guestbook(db: &mut Db, new_guestbook: NewGuestbook) -> (r: Result<
    Guestbook,
    StoreError,
>)
    requires
        old(db).wf(),
    ensures
        final(db).wf(),
        final(db).users@ == old(db).users@,
        final(db).next_user_id == old(db).next_user_id,
        old(db).next_guestbook_id < i32::MAX ==> r is Ok,
        match r {
            Ok(g) => {
                &&& g.id == old(db).next_guestbook_id
                &&& g.message == new_guestbook.message
                &&& g.user_id == new_guestbook.user_id
                &&& !has_guestbook(old(db).guestbooks@, g.id as int)
                &&& final(db).guestbooks@ == old(db).guestbooks@.push(g)
                &&& final(db).next_guestbook_id == old(db).next_guestbook_id + 1
            },
            Err(e) => {
                &&& e is Persistence
                &&& old(db).next_guestbook_id == i32::MAX
                &&& final(db).guestbooks@ == old(db).guestbooks@
                &&& final(db).next_guestbook_id == old(db).next_guestbook_id
            },
        },
{
    if db.next_guestbook_id == i32::MAX {
        return Err(StoreError::Persistence);
    }
    let id = db.next_guestbook_id;
    let row = Guestbook { id, message: new_guestbook.message, user_id: new_guestbook.user_id };
    let result = row.clone();
    proof {
        assert forall|k: int| 0 <= k < db.guestbooks@.len() implies (
        #[trigger] db.guestbooks@[k]).id != id as int by {}
    }
    db.guestbooks.push(row);
    db.next_guestbook_id = id + 1;
    proof {
        let pre = old(db).guestbooks@;
        let post = db.guestbooks@;
        assert forall|i: int, j: int| 0 <= i < j < post.len() implies (#[trigger] post[i]).id != (
        #[trigger] post[j]).id by {
            if j < pre.len() {
                assert(pre[i].id != pre[j].id);
            } else {
                assert(post[j].id == id);
                assert(post[i] == pre[i]);
            }
        }
    }
    Ok(result)
}

/// All guestbook rows belonging to one user, in table order. An empty result
/// is not an error.
pub fn list_guestbooks_by_user(db: &Db, user_id: i32) -> (r: Result<Vec<Guestbook>, StoreError>)
    ensures
        match r {
            Ok(rows) => rows@ == guestbooks_of(db.guestbooks@, user_id as int),
            Err(_) => false,
        },
{
    let mut rows: Vec<Guestbook> = Vec::new();
    let mut i: usize = 0;
    while i < db.guestbooks.len()
        invariant
            i <= db.guestbooks@.len(),
            rows@ == guestbooks_of(db.guestbooks@.take(i as int), user_id as int),
        decreases db.guestbooks@.len() - i,
    {
        proof {
            lemma_guestbooks_of_push(
                db.guestbooks@.take(i as int),
                user_id as int,
                db.guestbooks@[i as int],
            );
            assert(db.guestbooks@.take(i as int).push(db.guestbooks@[i as int]) =~= db.guestbooks@
                .take(i as int + 1));
        }
        if db.guestbooks[i].user_id == user_id {
            rows.push(db.guestbooks[i].clone());
        }
        i += 1;
    }
    proof {
        assert(db.guestbooks@.take(db.guestbooks@.len() as int) =~= db.guestbooks@);
    }
    Ok(rows)
}

/// All guestbook rows with their usernames resolved: the table is loaded once
/// and joined against the users table in memory, preserving table order; a row
/// whose user does not exist gets the sentinel username instead of failing.
pub fn list_guestbooks(db: &Db) -> (r: Result<Vec<GuestbookWithUsername>, StoreError>)
    requires
        db.wf(),
    ensures
        match r {
            Ok(rows) => {
                &&& rows@.len() == db.guestbooks@.len()
                &&& forall|j: int|
                    0 <= j < rows@.len() ==> joined_row_ok(
                        db.users@,
                        db.guestbooks@[j],
                        #[trigger] rows@[j],
                    )
            },
            Err(_) => false,
        },
{
    let mut rows: Vec<GuestbookWithUsername> = Vec::new();
    let mut i: usize = 0;
    while i < db.guestbooks.len()
        invariant
            db.wf(),
            i <= db.guestbooks@.len(),
            rows@.len() == i,
            forall|j: int|
                0 <= j < i ==> joined_row_ok(db.users@, db.guestbooks@[j], #[trigger] rows@[j]),
        decreases db.guestbooks@.len() - i,
    {
        let g = &db.guestbooks[i];
        let username: String = match find_user_index(&db.users, g.user_id) {
            Some(u) => {
                proof {
                    lemma_user_ix_is(db.users@, g.user_id as int, u as int);
                }
                db.users[u].username.clone()
            },
            None => "Not found".to_owned(),
        };
        let row = GuestbookWithUsername {
            id: g.id,
            message: g.message.clone(),
            user_id: g.user_id,
            username,
        };
        rows.push(row);
        i += 1;
    }
    Ok(rows)
}

/// One guestbook row with its username resolved, strictly: fails when either
/// the row or the referenced user is absent.
pub fn get_guestbook(db: &Db, id: i32) -> (r: Result<GuestbookWithUsername, StoreError>)
    requires
        db.wf(),
    ensures
        match r {
            Ok(row) => {
                &&& has_guestbook(db.guestbooks@, id as int)
                &&& row.id == id
                &&& joined_row_ok(
                    db.users@,
                    db.guestbooks@[guestbook_ix(db.guestbooks@, id as int)],
                    row,
                )
                &&& has_user(
                    db.users@,
                    db.guestbooks@[guestbook_ix(db.guestbooks@, id as int)].user_id as int,
                )
            },
            Err(e) => {
                &&& e is Persistence
                &&& !(has_guestbook(db.guestbooks@, id as int) && has_user(
                    db.users@,
                    db.guestbooks@[guestbook_ix(db.guestbooks@, id as int)].user_id as int,
                ))
            },
        },
{
    let gi = match find_guestbook_index(&db.guestbooks, id) {
        Some(gi) => gi,
        None => {
            return Err(StoreError::Persistence);
        },
    };
    proof {
        lemma_guestbook_ix_is(db.guestbooks@, id as int, gi as int);
    }
    let g = &db.guestbooks[gi];
    let ui = match find_user_index(&db.users, g.user_id) {
        Some(ui) => ui,
        None => {
            return Err(StoreError::Persistence);
        },
    };
    proof {
        lemma_user_ix_is(db.users@, g.user_id as int, ui as int);
    }
    Ok(
        GuestbookWithUsername {
            id: g.id,
            message: g.message.clone(),
            user_id: g.user_id,
            username: db.users[ui].username.clone(),
        },
    )
}

/// Rewrites a guestbook's message and owner, but only after checking that the
/// target owner exists: re-parenting to a missing user fails with
/// `UserNotFound` and leaves the row untouched. An absent row surfaces as a
/// generic persistence failure, as an update matching zero rows would.
pub fn update_guestbook(db: &mut Db, id: i32, update: UpdateGuestbook) -> (r: Result<
    Guestbook,
    StoreError,
>)
    requires
        old(db).wf(),
    ensures
        final(db).wf(),
        final(db).users@ == old(db).users@,
        final(db).next_user_id == old(db).next_user_id,
        final(db).next_guestbook_id == old(db).next_guestbook_id,
        match r {
            Ok(g) => {
                &&& has_user(old(db).users@, update.user_id as int)
                &&& has_guestbook(old(db).guestbooks@, id as int)
                &&& g.id == id
                &&& g.message == update.message
                &&& g.user_id == update.user_id
                &&& final(db).guestbooks@ == old(db).guestbooks@.update(
                    guestbook_ix(old(db).guestbooks@, id as int),
                    g,
                )
            },
            Err(e) => {
                &&& final(db).guestbooks@ == old(db).guestbooks@
                &&& (e is UserNotFound <==> !has_user(old(db).users@, update.user_id as int))
                &&& (e is Persistence ==> has_user(old(db).users@, update.user_id as int)
                    && !has_guestbook(old(db).guestbooks@, id as int))
            },
        },
{
    if find_user_index(&db.users, update.user_id).is_none() {
        return Err(StoreError::UserNotFound);
    }
    proof {
        assert(has_user(db.users@, update.user_id as int));
    }
    let gi = match find_guestbook_index(&db.guestbooks, id) {
        Some(gi) => gi,
        None => {
            return Err(StoreError::Persistence);
        },
    };
    proof {
        lemma_guestbook_ix_is(db.guestbooks@, id as int, gi as int);
    }
    let updated = Guestbook { id, message: update.message, user_id: update.user_id };
    let result = updated.clone();
    let _removed = db.guestbooks.remove(gi);
    db.guestbooks.insert(gi, updated);
    proof {
        let pre = old(db).guestbooks@;
        let post = db.guestbooks@;
        assert(post =~= pre.update(gi as int, result));
        assert forall|i: int, j: int| 0 <= i < j < post.len() implies (#[trigger] post[i]).id != (
        #[trigger] post[j]).id by {
            assert(pre[i].id != pre[j].id);
            assert(post[i].id == pre[i].id);
            assert(post[j].id == pre[j].id);
        }
        assert forall|i: int| 0 <= i < post.len() implies 1 <= (#[trigger] post[i]).id
            < db.next_guestbook_id by {
            assert(post[i].id == pre[i].id);
        }
    }
    Ok(result)
}

/// Deletes the guestbook row carrying this id. Idempotent: deleting an absent
/// id succeeds and changes nothing.
pub fn delete_guestbook(db: &mut Db, id: i32) -> (r: Result<(), StoreError>)
    requires
        old(db).wf(),
    ensures
        final(db).wf(),
        r is Ok,
        final(db).users@ == old(db).users@,
        final(db).next_user_id == old(db).next_user_id,
        final(db).next_guestbook_id == old(db).next_guestbook_id,
        final(db).guestbooks@ == guestbooks_without(old(db).guestbooks@, id as int),
{
    let mut kept: Vec<Guestbook> = Vec::new();
    let mut i: usize = 0;
    while i < db.guestbooks.len()
        invariant
            i <= db.guestbooks@.len(),
            db.guestbooks@ == old(db).guestbooks@,
            kept@ == guestbooks_without(db.guestbooks@.take(i as int), id as int),
        decreases db.guestbooks@.len() - i,
    {
        proof {
            lemma_guestbooks_without_push(
                db.guestbooks@.take(i as int),
                id as int,
                db.guestbooks@[i as int],
            );
            assert(db.guestbooks@.take(i as int).push(db.guestbooks@[i as int]) =~= db.guestbooks@
                .take(i as int + 1));
        }
        if db.guestbooks[i].id != id {
            kept.push(db.guestbooks[i].clone());
        }
        i += 1;
    }
    proof {
        assert(db.guestbooks@.take(db.guestbooks@.len() as int) =~= db.guestbooks@);
    }
    db.guestbooks = kept;
    proof {
        let pre = old(db).guestbooks@;
        let post = db.guestbooks@;
        lemma_guestbooks_without_ensures(pre, id as int);
        assert forall|j: int| 0 <= j < post.len() implies 1 <= (#[trigger] post[j]).id
            < db.next_guestbook_id by {
            assert(pre.contains(post[j]));
            let k = choose|k: int| 0 <= k < pre.len() && pre[k] == post[j];
            assert(1 <= pre[k].id < old(db).next_guestbook_id);
        }
        lemma_guestbooks_without_distinct(pre, id as int);
    }
    Ok(())
}

/// Deleting by id keeps ids pairwise distinct.
proof fn lemma_guestbooks_without_distinct(gbs: Seq<Guestbook>, id: int)
    requires
        forall|a: int, b: int|
            0 <= a < b < gbs.len() ==> (#[trigger] gbs[a]).id != (#[trigger] gbs[b]).id,
    ensures
        forall|a: int, b: int|
            0 <= a < b < guestbooks_without(gbs, id).len() ==> (#[trigger] guestbooks_without(
                gbs,
                id,
            )[a]).id != (#[trigger] guestbooks_without(gbs, id)[b]).id,
    decreases gbs.len(),
{
    if gbs.len() > 0 {
        lemma_guestbooks_without_distinct(gbs.drop_last(), id);
        lemma_guestbooks_without_ensures(gbs.drop_last(), id);
        let f = guestbooks_without(gbs, id);
        let fd = guestbooks_without(gbs.drop_last(), id);
        assert forall|a: int, b: int| 0 <= a < b < f.len() implies f[a].id != f[b].id by {
            if b < fd.len() {
                assert(fd[a].id != fd[b].id);
            } else {
                assert(f[a] == fd[a]);
                assert(gbs.drop_last().contains(fd[a]));
                let k = choose|k: int|
                    0 <= k < gbs.drop_last().len() && gbs.drop_last()[k] == fd[a];
                assert(gbs[k] == fd[a]);
                assert(gbs[k].id != gbs[gbs.len() - 1].id);
                assert(f[b] == gbs.last());
            }
        }
    }
}

/// Cascade deletion by owner keeps ids pairwise distinct.
pub proof fn lemma_guestbooks_without_user_distinct(gbs: Seq<Guestbook>, user_id: int)
    requires
        forall|a: int, b: int|
            0 <= a < b < gbs.len() ==> (#[trigger] gbs[a]).id != (#[trigger] gbs[b]).id,
    ensures
        forall|a: int, b: int|
            0 <= a < b < guestbooks_without_user(gbs, user_id).len() ==> (
            #[trigger] guestbooks_without_user(gbs, user_id)[a]).id != (
            #[trigger] guestbooks_without_user(gbs, user_id)[b]).id,
    decreases gbs.len(),
{
    if gbs.len() > 0 {
        lemma_guestbooks_without_user_distinct(gbs.drop_last(), user_id);
        lemma_guestbooks_without_user_ensures(gbs.drop_last(), user_id);
        let f = guestbooks_without_user(gbs, user_id);
        let fd = guestbooks_without_user(gbs.drop_last(), user_id);
        assert forall|a: int, b: int| 0 <= a < b < f.len() implies f[a].id != f[b].id by {
            if b < fd.len() {
                assert(fd[a].id != fd[b].id);
            } else {
                assert(f[a] == fd[a]);
                assert(gbs.drop_last().contains(fd[a]));
                let k = choose|k: int|
                    0 <= k < gbs.drop_last().len() && gbs.drop_last()[k] == fd[a];
                assert(gbs[k] == fd[a]);
                assert(gbs[k].id != gbs[gbs.len() - 1].id);
                assert(f[b] == gbs.last());
            }
        }
    }
}

} // verus!
