//! Laws that relate several store operations to one another. Each proof
//! function takes the states and values the operations' contracts speak of,
//! assumes exactly what those contracts ensure, and states the law over the
//! same spec functions.

use vstd::prelude::*;

use crate::guestbook::guestbook_count_of;
use crate::guestbook::guestbooks_of;
use crate::guestbook::guestbooks_without_user;
use crate::guestbook::lemma_guestbooks_of_none;
use crate::guestbook::lemma_guestbooks_without_user_ensures;
use crate::guestbook::Guestbook;
use crate::store::Db;
use crate::user::counts_listing_ok;
use crate::user::has_user;
use crate::user::lemma_head_is_max;
use crate::user::lemma_row_keys_contains;
use crate::user::lemma_row_keys_count_at;
use crate::user::lemma_user_ix_is;
use crate::user::lemma_user_keys_count_at;
use crate::user::most_listing_ok;
use crate::user::row_key;
use crate::user::row_keys;
use crate::user::user_ix;
use crate::user::user_key;
use crate::user::user_keys;
use crate::user::username_for;
use crate::user::NewUser;
use crate::user::User;
use crate::user::UserWithGuestbookCount;

verus! {

/// Creating a user and then fetching that user's id finds exactly the row
/// that was created: the same username and email, under an id no earlier row
/// carried. The premises are what `create_user` ensures of a well-formed
/// store; the conclusions are what `user_with_guestbooks` reports afterwards.
pub proof fn lemma_created_user_is_fetched(pre: Db, post: Db, new_user: NewUser, u: User)
    requires
        pre.wf(),
        post.wf(),
        u.id == pre.next_user_id,
        u.username == new_user.username,
        u.email == new_user.email,
        post.users@ == pre.users@.push(u),
    ensures
        !has_user(pre.users@, u.id as int),
        has_user(post.users@, u.id as int),
        post.users@[user_ix(post.users@, u.id as int)].username == new_user.username,
        post.users@[user_ix(post.users@, u.id as int)].email == new_user.email,
{
    assert forall|k: int| 0 <= k < pre.users@.len() implies (#[trigger] pre.users@[k]).id
        != u.id as int by {}
    assert(post.users@[pre.users@.len() as int] == u);
    lemma_user_ix_is(post.users@, u.id as int, pre.users@.len() as int);
}

/// The single-row aggregation agrees with the head of the full aggregation:
/// when any user exists, both are non-empty, the two head rows carry the same
/// count, and the single row's identity occurs in the full listing. (With
/// tied counts the full listing's head is not unique, so equality of counts,
/// not of rows, is what holds.)
pub proof fn lemma_most_matches_listing_head(
    db: Db,
    most: Seq<UserWithGuestbookCount>,
    listing: Seq<UserWithGuestbookCount>,
)
    requires
        db.wf(),
        most_listing_ok(db, most),
        counts_listing_ok(db, listing),
        db.users@.len() > 0,
    ensures
        most.len() == 1,
        listing.len() > 0,
        most[0].guestbook_count == listing[0].guestbook_count,
        row_keys(listing).count(row_key(most[0])) > 0,
{
    // The full listing's head names some user, whose count it carries; the
    // single row's count is maximal among users, so it is at least the head's.
    lemma_row_keys_count_at(listing, 0);
    assert(user_keys(db.users@).count(row_key(listing[0])) > 0);
    lemma_user_keys_contains(db.users@, row_key(listing[0]));
    let i = choose|i: int|
        0 <= i < db.users@.len() && user_key(#[trigger] db.users@[i]) == row_key(listing[0]);
    assert(db.users@[i].id == listing[0].id);
    assert(most[0].guestbook_count >= guestbook_count_of(db.guestbooks@, db.users@[i].id as int));
    assert(listing[0].guestbook_count == guestbook_count_of(db.guestbooks@, listing[0].id as int));

    // The single row names some user too, so the head's maximality bounds it
    // the other way.
    lemma_user_keys_contains(db.users@, row_key(most[0]));
    let j = choose|j: int|
        0 <= j < db.users@.len() && user_key(#[trigger] db.users@[j]) == row_key(most[0]);
    assert(db.users@[j].id == most[0].id);
    lemma_head_is_max(db, listing);
    assert(guestbook_count_of(db.guestbooks@, db.users@[j].id as int)
        <= listing[0].guestbook_count);
    assert(most[0].guestbook_count == guestbook_count_of(db.guestbooks@, most[0].id as int));

    // The single row's identity is a user identity, and those are exactly the
    // identities the full listing holds.
    assert(row_keys(listing).count(row_key(most[0])) > 0);
}

/// An identity that occurs in the users table's multiset is carried by some
/// user row.
pub proof fn lemma_user_keys_contains(users: Seq<User>, k: (i32, String))
    requires
        user_keys(users).count(k) > 0,
    ensures
        exists|i: int| 0 <= i < users.len() && user_key(#[trigger] users[i]) == k,
    decreases users.len(),
{
    broadcast use vstd::multiset::group_multiset_axioms;

    if users.len() == 0 {
        assert(user_keys(users).count(k) == 0);
    } else {
        if user_key(users.last()) == k {
            assert(user_key(users[users.len() - 1]) == k);
        } else {
            assert(user_keys(users.drop_last()).count(k) > 0);
            lemma_user_keys_contains(users.drop_last(), k);
            let i = choose|i: int|
                0 <= i < users.drop_last().len() && user_key(#[trigger] users.drop_last()[i]) == k;
            assert(user_key(users[i]) == k);
        }
    }
}

/// Deleting a user removes every guestbook referencing them: afterwards the
/// user's guestbook listing is empty and their count is zero. The premise is
/// what `delete_user` ensures of the guestbooks table.
pub proof fn lemma_deleted_user_keeps_no_guestbooks(pre: Db, post: Db, id: int)
    requires
        post.guestbooks@ == guestbooks_without_user(pre.guestbooks@, id),
    ensures
        guestbooks_of(post.guestbooks@, id) == Seq::<Guestbook>::empty(),
        guestbook_count_of(post.guestbooks@, id) == 0,
{
    lemma_guestbooks_without_user_ensures(pre.guestbooks@, id);
    lemma_guestbooks_of_none(post.guestbooks@, id);
}

/// Creating a guestbook never validates its user reference: when the
/// referenced user does not exist, the row is stored all the same, and every
/// joined listing resolves its username to the sentinel text.
pub proof fn lemma_dangling_guestbook_shows_sentinel(
    pre: Db,
    post: Db,
    new_guestbook: crate::guestbook::NewGuestbook,
    g: Guestbook,
)
    requires
        !has_user(pre.users@, new_guestbook.user_id as int),
        post.users@ == pre.users@,
        g.user_id == new_guestbook.user_id,
        post.guestbooks@ == pre.guestbooks@.push(g),
    ensures
        crate::guestbook::has_guestbook(post.guestbooks@, g.id as int),
        username_for(post.users@, g.user_id as int) == "Not found"@,
{
    assert(post.guestbooks@[pre.guestbooks@.len() as int] == g);
}


/// Two distinct rows with the same identity put that identity in the
/// listing's multiset at least twice.
proof fn lemma_row_keys_count_two(rows: Seq<UserWithGuestbookCount>, a: int, b: int)
    requires
        0 <= a < b < rows.len(),
        row_key(rows[a]) == row_key(rows[b]),
    ensures
        row_keys(rows).count(row_key(rows[a])) >= 2,
    decreases rows.len(),
{
    broadcast use vstd::multiset::group_multiset_axioms;

    if b == rows.len() - 1 {
        assert(rows[b] == rows.last());
        assert(rows.drop_last()[a] == rows[a]);
        lemma_row_keys_count_at(rows.drop_last(), a);
        assert(row_keys(rows) == row_keys(rows.drop_last()).insert(row_key(rows.last())));
    } else {
        assert(rows.drop_last()[a] == rows[a]);
        assert(rows.drop_last()[b] == rows[b]);
        lemma_row_keys_count_two(rows.drop_last(), a, b);
    }
}

/// In a users table with pairwise distinct ids, no identity occurs twice.
proof fn lemma_user_keys_count_unique(users: Seq<User>, k: (i32, String))
    requires
        forall|i: int, j: int|
            0 <= i < j < users.len() ==> (#[trigger] users[i]).id != (#[trigger] users[j]).id,
    ensures
        user_keys(users).count(k) <= 1,
    decreases users.len(),
{
    broadcast use vstd::multiset::group_multiset_axioms;

    if users.len() == 0 {
    } else {
        assert forall|i: int, j: int|
            0 <= i < j < users.drop_last().len() implies (#[trigger] users.drop_last()[i]).id != (
        #[trigger] users.drop_last()[j]).id by {
            assert(users[i].id != users[j].id);
        }
        lemma_user_keys_count_unique(users.drop_last(), k);
        if user_key(users.last()) == k {
            // no earlier row can carry the same identity: ids are distinct
            if user_keys(users.drop_last()).count(k) > 0 {
                lemma_user_keys_contains(users.drop_last(), k);
                let i = choose|i: int|
                    0 <= i < users.drop_last().len() && user_key(
                        #[trigger] users.drop_last()[i],
                    ) == k;
                assert(users[i].id != users[users.len() - 1].id);
            }
            assert(user_keys(users) == user_keys(users.drop_last()).insert(
                user_key(users.last()),
            ));
        }
    }
}

/// The full aggregation lists every user exactly once: each user's identity
/// is carried by some row reporting that user's count, and no two rows carry
/// the same identity. The premise is what `list_users_with_guestbook_counts`
/// ensures of a well-formed store.
pub proof fn lemma_each_user_listed_exactly_once(db: Db, rows: Seq<UserWithGuestbookCount>)
    requires
        db.wf(),
        counts_listing_ok(db, rows),
    ensures
        forall|i: int|
            0 <= i < db.users@.len() ==> exists|j: int|
                {
                    &&& 0 <= j < rows.len()
                    &&& (#[trigger] rows[j]).id == (#[trigger] db.users@[i]).id
                    &&& rows[j].username == db.users@[i].username
                    &&& rows[j].guestbook_count == guestbook_count_of(
                        db.guestbooks@,
                        db.users@[i].id as int,
                    )
                },
        forall|a: int, b: int|
            0 <= a < b < rows.len() ==> row_key(#[trigger] rows[a]) != row_key(#[trigger] rows[b]),
{
    assert forall|i: int| 0 <= i < db.users@.len() implies exists|j: int|
        {
            &&& 0 <= j < rows.len()
            &&& (#[trigger] rows[j]).id == (#[trigger] db.users@[i]).id
            &&& rows[j].username == db.users@[i].username
            &&& rows[j].guestbook_count == guestbook_count_of(
                db.guestbooks@,
                db.users@[i].id as int,
            )
        } by {
        lemma_user_keys_count_at(db.users@, i);
        assert(row_keys(rows).count(user_key(db.users@[i])) > 0);
        lemma_row_keys_contains(rows, user_key(db.users@[i]));
        let j = choose|j: int|
            0 <= j < rows.len() && row_key(#[trigger] rows[j]) == user_key(db.users@[i]);
        assert(rows[j].id == db.users@[i].id);
        assert(rows[j].username == db.users@[i].username);
        assert(rows[j].guestbook_count == guestbook_count_of(db.guestbooks@, rows[j].id as int));
    }
    assert forall|a: int, b: int| 0 <= a < b < rows.len() implies row_key(#[trigger] rows[a])
        != row_key(#[trigger] rows[b]) by {
        if row_key(rows[a]) == row_key(rows[b]) {
            lemma_row_keys_count_two(rows, a, b);
            lemma_user_keys_count_unique(db.users@, row_key(rows[a]));
        }
    }
}

} // verus!
