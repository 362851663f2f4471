use vstd::prelude::*;

use crate::comment::{
    Comment, CommentView, comment_item, comment_of, deleted_body, erased, replies_selector,
};
use crate::db::{Attributes, DbError, WireValue, opt_view, rfc3339_instant};
use crate::http::Failure;
use crate::ids::{
    auth_token, auth_token_text, comment_id, is_lower_hex, lemma_fresh_token_names_user,
    sha3_256_hex, comment_id_text, reaction_id, reaction_id_text,
    token_owner, token_user_id, user_id_for_email, user_id_text,
};
use crate::model::{DynamoDbListableModel, DynamoDbModel};
use crate::reaction::{Reaction, reaction_item, reaction_of, reactions_selector};
use crate::store::{
    batch_delete_leaves, Item, MemoryTable, Update, delete_items, has_key, item_key, keeps_key, lookup, put_items,
    selected, selected_key, table_wf, update_base, updated,
};
use crate::user::{User, UserView, distinct, distinct_ids, found_users, user_item, user_of};
use crate::tree::{CommentNode, build_comment_tree, comment_views, has_duplicate_id, has_orphan, listed};
use crate::model::DecodeFailure;
use crate::comment::comment_id_prefix;
use crate::reaction::reaction_id_prefix;
use crate::store::Selector;

verus! {

/// The failure that answers a store error: an internal one, carrying the error's description.
pub fn internal(e: DbError) -> (r: Failure)
    ensures
        r is Internal,
{
    Failure::Internal(e.describe())
}

/// The user that an auth token signs in: the one whose id the token's first part names and
/// whose stored token is the token itself. No token, no such user, or another token is
/// `Unauthorized`; a stored user that does not decode is `Internal`.
pub fn authenticate(db: &MemoryTable, auth_token: &Option<String>) -> (r: Result<User, Failure>)
    requires
        db.wf(),
    ensures
        match *auth_token {
            None => r matches Err(Failure::Unauthorized(_)),
            Some(t) => {
                let id = "USER_"@ + token_owner(t@);
                match lookup(db@, (id, id)) {
                    None => r matches Err(Failure::Unauthorized(_)),
                    Some(m) => match user_of(m) {
                        Err(_) => r matches Err(Failure::Internal(_)),
                        Ok(u) => if u.auth_token == t@ {
                            r matches Ok(x) && x@ == u
                        } else {
                            r matches Err(Failure::Unauthorized(_))
                        },
                    },
                }
            },
        },
{
    let token = match auth_token {
        None => return Err(Failure::Unauthorized(String::from_str("Invalid access token."))),
        Some(t) => t,
    };
    let id = token_user_id(token.as_str());
    match User::find(db, &id, &id) {
        Ok(found) => accept_user(found, token),
        Err(e) => Err(internal(e)),
    }
}

/// The signed-in user, given what was found under the id that `token` names: only a user
/// whose stored token is `token` itself; anything else is `Unauthorized`.
pub fn accept_user(found: Option<User>, token: &String) -> (r: Result<User, Failure>)
    ensures
        match found {
            Some(u) => if u.auth_token@ == token@ {
                r matches Ok(x) && x@ == u@
            } else {
                r matches Err(Failure::Unauthorized(_))
            },
            None => r matches Err(Failure::Unauthorized(_)),
        },
{
    match found {
        Some(user) => {
            if user.auth_token == *token {
                Ok(user)
            } else {
                Err(Failure::Unauthorized(String::from_str("Invalid access token.")))
            }
        },
        None => Err(Failure::Unauthorized(String::from_str("Invalid access token."))),
    }
}

/// Only the author of `comment` may change it: `Forbidden`, with `refusal`, for anyone else.
pub fn authorize(comment: &Comment, user: &User, refusal: &str) -> (r: Result<(), Failure>)
    ensures
        r is Ok <==> opt_view(comment.user_id) == Some(user.id@),
        r is Err ==> (r matches Err(Failure::Forbidden(m)) && m@ == refusal@),
{
    let owns = match &comment.user_id {
        Some(u) => *u == user.id,
        None => false,
    };
    if owns {
        Ok(())
    } else {
        Err(Failure::Forbidden(String::from_str(refusal)))
    }
}

/// The answer to a conditional write of a new reaction: a taken id is a `Conflict`, any other
/// store error `Internal`.
pub fn reaction_written(put: Result<(), DbError>) -> (r: Result<(), Failure>)
    ensures
        match put {
            Ok(()) => r is Ok,
            Err(DbError::Conflict(_)) => r matches Err(Failure::Conflict(_)),
            Err(_) => r matches Err(Failure::Internal(_)),
        },
{
    match put {
        Ok(()) => Ok(()),
        Err(DbError::Conflict(_)) => Err(Failure::Conflict(String::from_str("Reaction already exists"))),
        Err(e) => Err(internal(e)),
    }
}

/// The comment to act on, given what was found under its key: absent is `NotFound`.
pub fn found_comment(found: Option<Comment>) -> (r: Result<Comment, Failure>)
    ensures
        match found {
            Some(c) => r matches Ok(x) && x@ == c@,
            None => r matches Err(Failure::NotFound(_)),
        },
{
    match found {
        Some(c) => Ok(c),
        None => Err(Failure::NotFound(String::from_str("Comment not found"))),
    }
}

/// A reply must name a comment that exists: given what was found under the parent's key, an
/// absent parent is `BadRequest`.
pub fn check_reply(found: Option<Comment>) -> (r: Result<(), Failure>)
    ensures
        found is Some ==> r is Ok,
        found is None ==> (r matches Err(Failure::BadRequest(_))),
{
    match found {
        Some(_) => Ok(()),
        None => Err(Failure::BadRequest(String::from_str("replies_to is not a valid comment ID"))),
    }
}

/// The reaction to delete, given what was found under its derived id: absent is `BadRequest`.
pub fn found_reaction(found: Option<Reaction>) -> (r: Result<Reaction, Failure>)
    ensures
        match found {
            Some(x) => r matches Ok(y) && y@ == x@,
            None => r matches Err(Failure::BadRequest(_)),
        },
{
    match found {
        Some(x) => Ok(x),
        None => Err(Failure::BadRequest(String::from_str("Could not delete reaction."))),
    }
}

/// The comment `comment_id` of resource `commentable_id`: `NotFound` where absent, `Internal`
/// where it does not decode.
pub fn fetch_comment(db: &MemoryTable, commentable_id: &String, comment_id: &String) -> (r: Result<
    Comment,
    Failure,
>)
    requires
        db.wf(),
    ensures
        match lookup(db@, (commentable_id@, comment_id@)) {
            None => r matches Err(Failure::NotFound(_)),
            Some(m) => match comment_of(m) {
                Ok(v) => r matches Ok(c) && c@ == v,
                Err(_) => r matches Err(Failure::Internal(_)),
            },
        },
{
    match Comment::find(db, commentable_id, comment_id) {
        Ok(found) => found_comment(found),
        Err(e) => Err(internal(e)),
    }
}

/// Erasing keeps a comment's key, partition, parent and date, and shows the placeholder body,
/// no author and the soft-delete flag; so a lookup after erasing finds the redacted record,
/// and its replies, which name its id, still find it.
pub proof fn lemma_erased_comment(m: Item)
    requires
        comment_of(m) is Ok,
    ensures
        comment_of(erased(m)) == Ok::<CommentView, crate::model::DecodeFailure>(
            CommentView {
                body: deleted_body(),
                user_id: None,
                is_deleted: Some(true),
                ..comment_of(m)->Ok_0
            },
        ),
{
    reveal_strlit("is_deleted");
    reveal_strlit("body");
    reveal_strlit("user_id");
    reveal_strlit("primary_key");
    reveal_strlit("id");
    reveal_strlit("replies_to");
    reveal_strlit("created_at");
    assert("is_deleted"@.len() == 10 && "body"@.len() == 4 && "user_id"@.len() == 7);
    assert("primary_key"@.len() == 11 && "id"@.len() == 2);
    assert("replies_to"@.len() == 10 && "created_at"@.len() == 10);
    assert("is_deleted"@[0] != "replies_to"@[0]);
    assert("is_deleted"@[0] != "created_at"@[0]);
    let e = erased(m);
    assert(crate::db::wire_string(e, "primary_key"@) == crate::db::wire_string(m, "primary_key"@));
    assert(crate::db::wire_string(e, "id"@) == crate::db::wire_string(m, "id"@));
    assert(crate::db::wire_string(e, "replies_to"@) == crate::db::wire_string(m, "replies_to"@));
    assert(crate::db::wire_string(e, "created_at"@) == crate::db::wire_string(m, "created_at"@));
    assert(crate::db::wire_string(e, "body"@) == Some(deleted_body()));
    assert(crate::db::wire_string(e, "user_id"@) is None);
    assert(crate::db::wire_bool(e, "is_deleted"@) == Some(true));
}

/// How a deleted comment leaves the table.
pub enum Removal {
    /// Erased in place through this update, since somebody replied to it.
    Erase(Update),
    /// Removed, since nobody replied to it.
    Delete,
}

/// A comment with replies is erased in place; one without is removed.
pub fn removal_for(has_replies: bool) -> (r: Removal)
    ensures
        has_replies ==> (r matches Removal::Erase(u) && keeps_key(&u) && forall|m: Item|
            #[trigger] updated(m, &u) == erased(m)),
        !has_replies ==> r is Delete,
{
    if has_replies {
        Removal::Erase(Comment::erase_update())
    } else {
        Removal::Delete
    }
}

/// Deletes every reaction to a comment; then removes the comment where nobody replied to it,
/// or erases it in place where somebody did. Returns the erased comment, or `None` where it
/// was removed. Where the reactions could not all be deleted, the comment is left as it was
/// and the partial failure is returned. Items other than the comment and its reactions stay
/// as they were.
pub fn delete_or_erase(db: &mut MemoryTable, comment: Comment) -> (r: Result<Option<Comment>, DbError>)
    requires
        old(db).wf(),
    ensures
        ({
            let key = (comment.primary_key@, comment.id@);
            let had_replies = selected(old(db)@, replies_selector(comment.primary_key@, comment.id@)).len() > 0;
            let reactions = reactions_selector(comment.primary_key@, comment.id@);
            &&& final(db).wf()
            &&& final(db).spec_page_size() == old(db).spec_page_size()
            &&& final(db).spec_unprocessed_percent() == old(db).spec_unprocessed_percent()
            &&& forall|k: (Seq<char>, Seq<char>)|
                #![trigger lookup(final(db)@, k)]
                k != key && !selected_key(old(db)@, reactions, k) ==> lookup(final(db)@, k)
                    == lookup(old(db)@, k)
            &&& r is Ok ==> forall|k: (Seq<char>, Seq<char>)|
                #![trigger lookup(final(db)@, k)]
                k != key && selected_key(old(db)@, reactions, k) ==> lookup(final(db)@, k) is None
            &&& r is Err ==> (r matches Err(DbError::PartialFailure(_)))
            &&& (r is Ok) <==> batch_delete_leaves(
                selected(old(db)@, reactions).len(),
                old(db).spec_unprocessed_percent(),
            ) == 0
            &&& r matches Err(DbError::PartialFailure(n)) ==> n == batch_delete_leaves(
                selected(old(db)@, reactions).len(),
                old(db).spec_unprocessed_percent(),
            )
            &&& old(db).spec_unprocessed_percent() == 0 ==> r is Ok
            &&& (r is Ok && !had_replies) ==> (lookup(final(db)@, key) is None && r matches Ok(None))
            &&& (r is Ok && had_replies && !selected_key(old(db)@, reactions, key)) ==> lookup(final(db)@, key)
                == Some(erased(update_base(old(db)@, key)))
            &&& (r is Ok && had_replies) ==> (r matches Ok(Some(c)) && c@ == (CommentView {
                body: deleted_body(),
                user_id: None,
                is_deleted: Some(true),
                ..comment@
            }))
        }),
{
    let ghost key = (comment.primary_key@, comment.id@);
    let ghost start = db@;
    let has_replies = comment.has_replies(db);
    match Reaction::remove_all_for_comment(db, &comment.primary_key, &comment.id) {
        Ok(()) => {},
        Err(e) => return Err(e),
    }
    let ghost middle = db@;
    proof {
        db.lemma_wf();
    }
    let mut comment = comment;
    let erase = match removal_for(has_replies) {
        Removal::Erase(_) => true,
        Removal::Delete => false,
    };
    if erase {
        comment.erase(db);
        proof {
            assert forall|k: (Seq<char>, Seq<char>)| k != key implies #[trigger] lookup(db@, k) == lookup(middle, k) by {
                lemma_put_lookup(middle, erased(update_base(middle, key)), key, k);
            }
            lemma_put_lookup(middle, erased(update_base(middle, key)), key, key);
        }
        Ok(Some(comment))
    } else {
        db.delete_item(&comment.primary_key, &comment.id);
        proof {
            assert forall|k: (Seq<char>, Seq<char>)| #[trigger] lookup(db@, k) == if k == key { None } else { lookup(middle, k) } by {
                crate::store::lemma_delete_lookup(middle, key, k);
            }
        }
        Ok(None)
    }
}

/// An unconditional put of `m` under `key` finds `m` there and leaves other keys alone.
pub proof fn lemma_put_lookup(items: Seq<Item>, m: Item, key: (Seq<char>, Seq<char>), other: (Seq<char>, Seq<char>))
    requires
        table_wf(items),
        crate::store::item_key(m) == Some(key),
    ensures
        lookup(put_items(items, m), other) == if other == key { Some(m) } else { lookup(items, other) },
{
    let after = put_items(items, m);
    if crate::store::has_key(items, key) {
        let i = crate::store::key_index(items, key);
        assert(after[i] == m);
        if other == key {
            assert(crate::store::has_key(after, key));
            let j = crate::store::key_index(after, key);
            if j != i {
                assert(after[j] == items[j]);
                assert(crate::store::item_key(items[j]) != crate::store::item_key(items[i]));
            }
        } else {
            if crate::store::has_key(items, other) {
                let j = crate::store::key_index(items, other);
                assert(j != i);
                assert(after[j] == items[j]);
                assert(crate::store::has_key(after, other));
                let j2 = crate::store::key_index(after, other);
                if j2 != j {
                    if j2 == i {
                    } else {
                        assert(after[j2] == items[j2]);
                    }
                }
            } else {
                if crate::store::has_key(after, other) {
                    let j2 = crate::store::key_index(after, other);
                    if j2 != i {
                        assert(after[j2] == items[j2]);
                    }
                }
            }
        }
    } else {
        let i = items.len() as int;
        assert(after[i] == m);
        if other == key {
            assert(crate::store::has_key(after, key));
            let j = crate::store::key_index(after, key);
            if j != i {
                assert(after[j] == items[j]);
            }
        } else {
            if crate::store::has_key(items, other) {
                let j = crate::store::key_index(items, other);
                assert(after[j] == items[j]);
                assert(crate::store::has_key(after, other));
                let j2 = crate::store::key_index(after, other);
                if j2 != j {
                    if j2 == i {
                    } else {
                        assert(after[j2] == items[j2]);
                    }
                }
            } else {
                if crate::store::has_key(after, other) {
                    let j2 = crate::store::key_index(after, other);
                    if j2 != i {
                        assert(after[j2] == items[j2]);
                    }
                }
            }
        }
    }
}

/// The reaction written under `(commentable_id, id)`: its key is the key it is written under.
proof fn lemma_reaction_item_key(
    commentable_id: Seq<char>,
    id: Seq<char>,
    user_id: Seq<char>,
    comment_id: Seq<char>,
    kind: Seq<char>,
    created_at: Seq<char>,
)
    ensures
        item_key(reaction_item(commentable_id, id, user_id, comment_id, kind, created_at)) == Some(
            (commentable_id, id),
        ),
{
    reveal_strlit("primary_key");
    reveal_strlit("id");
    reveal_strlit("user_id");
    reveal_strlit("comment_id");
    reveal_strlit("type");
    reveal_strlit("created_at");
    assert("primary_key"@.len() == 11 && "id"@.len() == 2 && "user_id"@.len() == 7);
    assert("comment_id"@.len() == 10 && "type"@.len() == 4 && "created_at"@.len() == 10);
}

/// Records the reaction of type `reaction_type` by `user` to comment `comment_id`. Its id is
/// derived from comment, user and type, and the write is refused where that id is taken, so a
/// second reaction of one user and type to one comment is a `Conflict`, not a second row.
pub fn add_reaction(
    db: &mut MemoryTable,
    commentable_id: &String,
    user: &User,
    comment_id: &String,
    reaction_type: &String,
    now: &String,
) -> (r: Result<Reaction, Failure>)
    requires
        old(db).wf(),
    ensures
        final(db).wf(),
        final(db).spec_page_size() == old(db).spec_page_size(),
        final(db).spec_unprocessed_percent() == old(db).spec_unprocessed_percent(),
        r is Err ==> final(db)@ == old(db)@,
        match lookup(old(db)@, (commentable_id@, comment_id@)) {
            None => r matches Err(Failure::NotFound(_)),
            Some(m) => match comment_of(m) {
                Err(_) => r matches Err(Failure::Internal(_)),
                Ok(c) => {
                    let id = reaction_id_text(c.id, user.id@, reaction_type@);
                    let item = reaction_item(
                        commentable_id@,
                        id,
                        user.id@,
                        c.id,
                        reaction_type@,
                        now@,
                    );
                    &&& rfc3339_instant(now@) is None ==> (r matches Err(Failure::Internal(_)))
                    &&& (has_key(old(db)@, (commentable_id@, id)) && rfc3339_instant(now@) is Some)
                        ==> (r matches Err(Failure::Conflict(_)))
                    &&& (!has_key(old(db)@, (commentable_id@, id)) && rfc3339_instant(now@) is Some)
                        ==> (r matches Ok(x) && Ok::<_, crate::model::DecodeFailure>(x@)
                        == reaction_of(item) && final(db)@ == old(db)@.push(item))
                },
            },
        },
{
    let comment = match fetch_comment(db, commentable_id, comment_id) {
        Ok(c) => c,
        Err(f) => return Err(f),
    };
    let id = reaction_id(&comment.id, &user.id, reaction_type);
    let attributes = Reaction::attributes_for(
        commentable_id.clone(),
        id,
        user.id.clone(),
        comment.id.clone(),
        reaction_type.clone(),
        now.clone(),
    );
    proof {
        lemma_reaction_item_key(commentable_id@, reaction_id_text(comment.id@, user.id@, reaction_type@), user.id@, comment.id@, reaction_type@, now@);
    }
    let reaction = match Reaction::new(&attributes) {
        Ok(x) => x,
        Err(e) => return Err(internal(e)),
    };
    match reaction_written(db.put_new_item(attributes)) {
        Ok(()) => Ok(reaction),
        Err(f) => Err(f),
    }
}

/// Once a reaction is recorded, its key is taken: recording the same user's reaction of the
/// same type to the same comment again finds the derived id in use, whatever the instants.
pub proof fn lemma_repeated_reaction_conflicts(
    items: Seq<Item>,
    commentable_id: Seq<char>,
    comment: Seq<char>,
    user: Seq<char>,
    kind: Seq<char>,
    first_instant: Seq<char>,
)
    ensures
        has_key(
            items.push(
                reaction_item(
                    commentable_id,
                    reaction_id_text(comment, user, kind),
                    user,
                    comment,
                    kind,
                    first_instant,
                ),
            ),
            (commentable_id, reaction_id_text(comment, user, kind)),
        ),
{
    let id = reaction_id_text(comment, user, kind);
    let m = reaction_item(commentable_id, id, user, comment, kind, first_instant);
    lemma_reaction_item_key(commentable_id, id, user, comment, kind, first_instant);
    let after = items.push(m);
    assert(after[items.len() as int] == m);
}

/// Deletes the reaction of type `reaction_type` by `user` to comment `comment_id`; where there
/// is none, `BadRequest`.
pub fn delete_reaction(
    db: &mut MemoryTable,
    commentable_id: &String,
    user: &User,
    comment_id: &String,
    reaction_type: &String,
) -> (r: Result<(), Failure>)
    requires
        old(db).wf(),
    ensures
        final(db).wf(),
        r is Err ==> final(db)@ == old(db)@,
        match lookup(old(db)@, (commentable_id@, comment_id@)) {
            None => r matches Err(Failure::NotFound(_)),
            Some(m) => match comment_of(m) {
                Err(_) => r matches Err(Failure::Internal(_)),
                Ok(c) => {
                    let key = (commentable_id@, reaction_id_text(c.id, user.id@, reaction_type@));
                    &&& lookup(old(db)@, key) is None ==> (r matches Err(Failure::BadRequest(_)))
                    &&& r is Ok ==> final(db)@ == delete_items(old(db)@, key)
                    &&& (lookup(old(db)@, key) matches Some(x) && reaction_of(x) is Ok) ==> r is Ok
                },
            },
        },
{
    let comment = match fetch_comment(db, commentable_id, comment_id) {
        Ok(c) => c,
        Err(f) => return Err(f),
    };
    let id = reaction_id(&comment.id, &user.id, reaction_type);
    match Reaction::find(db, commentable_id, &id) {
        Ok(found) => match found_reaction(found) {
            Ok(_) => {
                db.delete_item(commentable_id, &id);
                Ok(())
            },
            Err(f) => Err(f),
        },
        Err(e) => Err(internal(e)),
    }
}

/// Posts a comment by `author` on resource `commentable_id`, as a reply where `replies_to`
/// names a parent. A parent that does not exist is refused as `BadRequest`, and nothing is
/// written. The id is derived from resource, author and the instant `now` (RFC 3339 text)
/// at `now_millis` milliseconds after the epoch.
pub fn add_comment(
    db: &mut MemoryTable,
    commentable_id: &String,
    author: &User,
    body: &String,
    replies_to: &Option<String>,
    now: &String,
    now_millis: u64,
) -> (r: Result<Comment, Failure>)
    requires
        old(db).wf(),
    ensures
        ({
            let id = comment_id_text(commentable_id@, author.id@, now@, now_millis as nat);
            let item = comment_item(commentable_id@, id, author.id@, body@, opt_view(*replies_to), now@);
            let parent_ok = match *replies_to {
                None => true,
                Some(p) => lookup(old(db)@, (commentable_id@, p@)) matches Some(pm) && comment_of(pm) is Ok,
            };
            &&& final(db).wf()
            &&& final(db).spec_page_size() == old(db).spec_page_size()
            &&& final(db).spec_unprocessed_percent() == old(db).spec_unprocessed_percent()
            &&& r is Err ==> final(db)@ == old(db)@
            &&& (*replies_to matches Some(p) && lookup(old(db)@, (commentable_id@, p@)) is None) ==> (r matches Err(Failure::BadRequest(_)))
            &&& r is Ok ==> (final(db)@ == put_items(old(db)@, item) && Ok::<_, crate::model::DecodeFailure>(r->Ok_0@) == comment_of(item))
            &&& (parent_ok && comment_of(item) is Ok) ==> r is Ok
        }),
{
    match replies_to {
        Some(parent) => match Comment::find(db, commentable_id, parent) {
            Ok(found) => match check_reply(found) {
                Ok(()) => {},
                Err(f) => return Err(f),
            },
            Err(e) => return Err(internal(e)),
        },
        None => {},
    }
    let id = comment_id(commentable_id, &author.id, now.as_str(), now_millis);
    let attributes = Comment::attributes_for(
        commentable_id.clone(),
        id,
        author.id.clone(),
        body.clone(),
        match replies_to {
            Some(p) => Some(p.clone()),
            None => None,
        },
        now.clone(),
    );
    match Comment::create(db, attributes) {
        Ok(c) => Ok(c),
        Err(e) => Err(internal(e)),
    }
}

/// Replacing the body of a stored comment changes its body and nothing else.
pub proof fn lemma_body_replaced(m: Item, body: Seq<char>)
    requires
        comment_of(m) is Ok,
    ensures
        comment_of(m.insert("body"@, WireValue::S(body))) == Ok::<
            CommentView,
            crate::model::DecodeFailure,
        >(CommentView { body, ..comment_of(m)->Ok_0 }),
{
    reveal_strlit("is_deleted");
    reveal_strlit("body");
    reveal_strlit("user_id");
    reveal_strlit("primary_key");
    reveal_strlit("id");
    reveal_strlit("replies_to");
    reveal_strlit("created_at");
    assert("is_deleted"@.len() == 10 && "body"@.len() == 4 && "user_id"@.len() == 7);
    assert("primary_key"@.len() == 11 && "id"@.len() == 2);
    assert("replies_to"@.len() == 10 && "created_at"@.len() == 10);
    let e = m.insert("body"@, WireValue::S(body));
    assert(crate::db::wire_string(e, "primary_key"@) == crate::db::wire_string(m, "primary_key"@));
    assert(crate::db::wire_string(e, "id"@) == crate::db::wire_string(m, "id"@));
    assert(crate::db::wire_string(e, "replies_to"@) == crate::db::wire_string(m, "replies_to"@));
    assert(crate::db::wire_string(e, "created_at"@) == crate::db::wire_string(m, "created_at"@));
    assert(crate::db::wire_string(e, "user_id"@) == crate::db::wire_string(m, "user_id"@));
    assert(crate::db::wire_bool(e, "is_deleted"@) == crate::db::wire_bool(m, "is_deleted"@));
}

/// The update that replaces a comment's body.
pub fn body_update(body: &String) -> (r: Update)
    ensures
        keeps_key(&r),
        forall|m: Item| #[trigger] updated(m, &r) == m.insert("body"@, WireValue::S(body@)),
{
    let mut sets = Attributes::new();
    sets.insert_string("body", body.clone());
    let r = Update { sets, removes: Vec::new() };
    proof {
        reveal_strlit("body");
        reveal_strlit("primary_key");
        reveal_strlit("id");
        assert("body"@.len() == 4 && "primary_key"@.len() == 11 && "id"@.len() == 2);
        assert(crate::store::removed_names(&r) =~= Seq::<Seq<char>>::empty());
        assert forall|m: Item| #[trigger] updated(m, &r) == m.insert("body"@, WireValue::S(body@)) by {
            assert(m.union_prefer_right(r.sets@) =~= m.insert("body"@, WireValue::S(body@)));
        }
    }
    r
}

/// Replaces the body of comment `comment_id`, which only its author may do (`Forbidden`
/// otherwise).
pub fn edit_comment(
    db: &mut MemoryTable,
    commentable_id: &String,
    user: &User,
    comment_id: &String,
    body: &String,
) -> (r: Result<Comment, Failure>)
    requires
        old(db).wf(),
    ensures
        final(db).wf(),
        r is Err ==> final(db)@ == old(db)@,
        match lookup(old(db)@, (commentable_id@, comment_id@)) {
            None => r matches Err(Failure::NotFound(_)),
            Some(m) => match comment_of(m) {
                Err(_) => r matches Err(Failure::Internal(_)),
                Ok(c) => if c.user_id == Some(user.id@) {
                    &&& final(db)@ == put_items(old(db)@, m.insert("body"@, WireValue::S(body@)))
                    &&& (r matches Ok(x) && x@ == CommentView { body: body@, ..c })
                } else {
                    r matches Err(Failure::Forbidden(_))
                },
            },
        },
{
    let comment = match fetch_comment(db, commentable_id, comment_id) {
        Ok(c) => c,
        Err(f) => return Err(f),
    };
    match authorize(&comment, user, "Cannot update comment") {
        Ok(()) => {},
        Err(f) => return Err(f),
    }
    let changes = body_update(body);
    proof {
        let k = crate::store::key_index(db@, (commentable_id@, comment_id@));
        assert(update_base(db@, (commentable_id@, comment_id@)) == lookup(db@, (commentable_id@, comment_id@))->Some_0);
    }
    proof {
        lemma_body_replaced(lookup(db@, (commentable_id@, comment_id@))->Some_0, body@);
    }
    match Comment::update(db, commentable_id, comment_id, &changes) {
        Ok(c) => Ok(c),
        Err(e) => Err(internal(e)),
    }
}

/// Deletes comment `comment_id` for its author (`Forbidden` for anyone else): see
/// `delete_or_erase`. Returns the erased comment, or `None` where it was removed.
pub fn delete_comment(
    db: &mut MemoryTable,
    commentable_id: &String,
    user: &User,
    comment_id: &String,
) -> (r: Result<Option<Comment>, Failure>)
    requires
        old(db).wf(),
    ensures
        final(db).wf(),
        match lookup(old(db)@, (commentable_id@, comment_id@)) {
            None => r matches Err(Failure::NotFound(_)) && final(db)@ == old(db)@,
            Some(m) => match comment_of(m) {
                Err(_) => r matches Err(Failure::Internal(_)) && final(db)@ == old(db)@,
                Ok(c) => if c.user_id == Some(user.id@) {
                    let key = (commentable_id@, comment_id@);
                    let had_replies = selected(old(db)@, replies_selector(c.primary_key, c.id)).len() > 0;
                    &&& (r is Ok && !had_replies) ==> lookup(final(db)@, key) is None
                    &&& (r is Ok && had_replies && !selected_key(old(db)@, reactions_selector(c.primary_key, c.id), key))
                        ==> lookup(final(db)@, key) == Some(erased(m))
                    &&& old(db).spec_unprocessed_percent() == 0 ==> r is Ok
                    &&& (r is Ok) <==> batch_delete_leaves(
                        selected(old(db)@, reactions_selector(c.primary_key, c.id)).len(),
                        old(db).spec_unprocessed_percent(),
                    ) == 0
                } else {
                    r matches Err(Failure::Forbidden(_)) && final(db)@ == old(db)@
                },
            },
        },
{
    let comment = match fetch_comment(db, commentable_id, comment_id) {
        Ok(c) => c,
        Err(f) => return Err(f),
    };
    match authorize(&comment, user, "Cannot delete comment.") {
        Ok(()) => {},
        Err(f) => return Err(f),
    }
    proof {
        let key = (commentable_id@, comment_id@);
        let m = lookup(db@, key)->Some_0;
        assert(update_base(db@, key) == m);
        assert(comment@.primary_key == commentable_id@ && comment@.id == comment_id@) by {
            let i = crate::store::key_index(db@, key);
            assert(item_key(db@[i]) == Some(key));
        }
    }
    match delete_or_erase(db, comment) {
        Ok(kept) => Ok(kept),
        Err(e) => Err(internal(e)),
    }
}

/// The ids of the authors of `cs`, in order, for the comments that have one.
pub open spec fn author_ids(cs: Seq<Comment>) -> Seq<String>
    decreases cs.len(),
{
    if cs.len() == 0 {
        Seq::empty()
    } else {
        match cs.last().user_id {
            Some(u) => author_ids(cs.drop_last()).push(u),
            None => author_ids(cs.drop_last()),
        }
    }
}

/// The ids of the authors of `comments`, in order, for the comments that have one.
pub fn collect_author_ids(comments: &Vec<Comment>) -> (r: Vec<String>)
    ensures
        r@ == author_ids(comments@),
{
    let mut ids: Vec<String> = Vec::new();
    let mut i: usize = 0;
    while i < comments.len()
        invariant
            i <= comments@.len(),
            ids@ == author_ids(comments@.take(i as int)),
        decreases comments@.len() - i,
    {
        proof {
            assert(comments@.take(i + 1).drop_last() =~= comments@.take(i as int));
        }
        match &comments[i].user_id {
            Some(u) => ids.push(u.clone()),
            None => {},
        }
        i = i + 1;
    }
    proof {
        assert(comments@.take(i as int) =~= comments@);
    }
    ids
}

/// The records that a listing of resource `commentable_id` reads: its comments and reactions
/// as stored, and the users stored for the comments' authors.
pub open spec fn listing_inputs(
    items: Seq<Item>,
    commentable_id: Seq<char>,
    cs: Seq<Comment>,
    rs: Seq<Reaction>,
    us: Seq<User>,
) -> bool {
    let sc = selected(items, Selector::IdPrefix(commentable_id, comment_id_prefix()));
    let sr = selected(items, Selector::IdPrefix(commentable_id, reaction_id_prefix()));
    let su = found_users(items, distinct(author_ids(cs)));
    &&& cs.len() == sc.len()
    &&& forall|i: int| 0 <= i < sc.len() ==> comment_of(#[trigger] sc[i]) == Ok::<CommentView, DecodeFailure>(cs[i]@)
    &&& rs.len() == sr.len()
    &&& forall|i: int| 0 <= i < sr.len() ==> reaction_of(#[trigger] sr[i]) == Ok::<crate::reaction::ReactionView, DecodeFailure>(rs[i]@)
    &&& us.len() == su.len()
    &&& forall|i: int| 0 <= i < su.len() ==> user_of(#[trigger] su[i]) == Ok::<UserView, DecodeFailure>(us[i]@)
}

/// `nodes` is the listing of what resource `commentable_id` holds, for `requester`.
pub open spec fn lists_resource(
    items: Seq<Item>,
    commentable_id: Seq<char>,
    requester: Option<String>,
    nodes: Seq<CommentNode>,
) -> bool {
    exists|cs: Seq<Comment>, rs: Seq<Reaction>, us: Seq<User>|
        #[trigger] listing_inputs(items, commentable_id, cs, rs, us) && listed(cs, rs, us, requester, nodes)
}

proof fn lemma_lists_resource(
    items: Seq<Item>,
    commentable_id: Seq<char>,
    requester: Option<String>,
    nodes: Seq<CommentNode>,
    cs: Seq<Comment>,
    rs: Seq<Reaction>,
    us: Seq<User>,
)
    requires
        listing_inputs(items, commentable_id, cs, rs, us),
        listed(cs, rs, us, requester, nodes),
    ensures
        lists_resource(items, commentable_id, requester, nodes),
{
}

/// The comments that the selected items of `sc` denote, where each denotes one.
pub open spec fn decoded_comments(sc: Seq<Item>) -> Seq<CommentView> {
    sc.map_values(|m: Item| comment_of(m)->Ok_0)
}

/// Everything a listing of resource `commentable_id` reads decodes, and its comments are
/// consistent: no two share an id and none replies to an absent one.
pub open spec fn listable(items: Seq<Item>, commentable_id: Seq<char>) -> bool {
    let sc = selected(items, Selector::IdPrefix(commentable_id, comment_id_prefix()));
    let sr = selected(items, Selector::IdPrefix(commentable_id, reaction_id_prefix()));
    &&& forall|i: int| 0 <= i < sc.len() ==> (#[trigger] comment_of(sc[i])) is Ok
    &&& forall|i: int| 0 <= i < sr.len() ==> (#[trigger] reaction_of(sr[i])) is Ok
    &&& forall|i: int|
        0 <= i < items.len() && (#[trigger] item_key(items[i]) matches Some(k) && k.0 == k.1)
            ==> user_of(items[i]) is Ok
    &&& !has_duplicate_id(decoded_comments(sc))
    &&& !has_orphan(decoded_comments(sc))
}

/// Each user found for a list of ids is an item stored under the key `(id, id)`.
proof fn lemma_found_users_stored(items: Seq<Item>, ids: Seq<String>, i: int)
    requires
        table_wf(items),
        0 <= i < found_users(items, ids).len(),
    ensures
        exists|j: int|
            0 <= j < items.len() && items[j] == found_users(items, ids)[i] && (#[trigger] item_key(
                items[j],
            ) matches Some(k) && k.0 == k.1),
    decreases ids.len(),
{
    if ids.len() > 0 {
        let rest = found_users(items, ids.drop_last());
        let id = ids.last()@;
        if i < rest.len() {
            lemma_found_users_stored(items, ids.drop_last(), i);
            let j = choose|j: int|
                0 <= j < items.len() && items[j] == rest[i] && (#[trigger] item_key(items[j]) matches Some(k) && k.0 == k.1);
            assert(found_users(items, ids)[i] == rest[i]);
        } else {
            let j = crate::store::key_index(items, (id, id));
            assert(item_key(items[j]) == Some((id, id)));
        }
    }
}

/// The comment forest of resource `commentable_id` as `requester` sees it: its comments,
/// reactions, and the authors found, assembled by `build_comment_tree`. A stored record that
/// does not decode, or an inconsistent set of comments, is `Internal`.
pub fn list_comments(db: &MemoryTable, commentable_id: &String, requester: &Option<String>) -> (r:
    Result<Vec<CommentNode>, Failure>)
    requires
        db.wf(),
    ensures
        r is Ok ==> lists_resource(db@, commentable_id@, *requester, r->Ok_0@),
        r is Err ==> r->Err_0 is Internal,
        listable(db@, commentable_id@) ==> r is Ok,
        ({
            let sc = selected(db@, Selector::IdPrefix(commentable_id@, comment_id_prefix()));
            (has_orphan(decoded_comments(sc)) || has_duplicate_id(decoded_comments(sc))) ==> r is Err
        }),
{
    proof {
        db.lemma_wf();
    }
    let comments = match Comment::list(db, commentable_id) {
        Ok(c) => c,
        Err(e) => return Err(internal(e)),
    };
    let reactions = match Reaction::list(db, commentable_id) {
        Ok(x) => x,
        Err(e) => return Err(internal(e)),
    };
    let ids = distinct_ids(&collect_author_ids(&comments));
    let users = match User::batch_get(db, &ids) {
        Ok(u) => u,
        Err(e) => {
            proof {
                if listable(db@, commentable_id@) {
                    let su = found_users(db@, ids@);
                    let i = choose|i: int| 0 <= i < su.len() && ((#[trigger] user_of(su[i])) matches Err(f) && crate::model::reports(e, f));
                    lemma_found_users_stored(db@, ids@, i);
                    let j = choose|j: int| 0 <= j < db@.len() && db@[j] == su[i] && (#[trigger] item_key(db@[j]) matches Some(k) && k.0 == k.1);
                }
            }
            return Err(internal(e));
        },
    };
    proof {
        let sc = selected(db@, Selector::IdPrefix(commentable_id@, comment_id_prefix()));
        assert(comment_views(comments@) =~= decoded_comments(sc)) by {
            assert forall|i: int| 0 <= i < sc.len() implies comment_views(comments@)[i] == decoded_comments(sc)[i] by {
                assert(comment_of(sc[i]) == Ok::<CommentView, DecodeFailure>(comments@[i]@));
            }
        }
    }
    match build_comment_tree(&comments, &reactions, &users, requester) {
        Ok(nodes) => {
            proof {
                lemma_lists_resource(db@, commentable_id@, *requester, nodes@, comments@, reactions@, users@);
            }
            Ok(nodes)
        },
        Err(e) => Err(internal(e)),
    }
}

/// Signs in the person whose identity provider vouched for `email`: the user stored under the
/// id derived from the email, or, on a first sign-in, a new user with a fresh token.
pub fn sign_in(
    db: &mut MemoryTable,
    email: &String,
    name: &String,
    picture_url: &String,
    now: &String,
) -> (r: Result<User, Failure>)
    requires
        old(db).wf(),
    ensures
        final(db).wf(),
        ({
            let id = user_id_text(email@);
            let item = user_item(id, email@, name@, picture_url@, auth_token_text(email@, now@), now@);
            match lookup(old(db)@, (id, id)) {
                Some(m) => final(db)@ == old(db)@ && match user_of(m) {
                    Ok(u) => r matches Ok(x) && x@ == u,
                    Err(_) => r matches Err(Failure::Internal(_)),
                },
                None => match user_of(item) {
                    Ok(u) => r matches Ok(x) && x@ == u && final(db)@ == put_items(old(db)@, item),
                    Err(_) => r matches Err(Failure::Internal(_)) && final(db)@ == old(db)@,
                },
            }
        }),
{
    let id = user_id_for_email(email);
    match User::find(db, &id, &id) {
        Ok(Some(user)) => Ok(user),
        Err(e) => Err(internal(e)),
        Ok(None) => {
            let token = auth_token(email, now);
            let attributes = User::attributes_for(
                id,
                email.clone(),
                name.clone(),
                picture_url.clone(),
                token,
                now.clone(),
            );
            match User::create(db, attributes) {
                Ok(u) => Ok(u),
                Err(e) => Err(internal(e)),
            }
        },
    }
}

/// The user written for `id` is stored under the key `(id, id)`.
proof fn lemma_user_item_key(
    id: Seq<char>,
    email: Seq<char>,
    name: Seq<char>,
    picture_url: Seq<char>,
    token: Seq<char>,
    created_at: Seq<char>,
)
    ensures
        item_key(user_item(id, email, name, picture_url, token, created_at)) == Some((id, id)),
{
    reveal_strlit("primary_key");
    reveal_strlit("id");
    reveal_strlit("email");
    reveal_strlit("name");
    reveal_strlit("picture_url");
    reveal_strlit("auth_token");
    reveal_strlit("created_at");
    assert("primary_key"@.len() == 11 && "id"@.len() == 2 && "email"@.len() == 5);
    assert("name"@.len() == 4 && "auth_token"@.len() == 10 && "created_at"@.len() == 10);
    assert("picture_url"@[1] != "primary_key"@[1]);
    assert("picture_url"@[1] != "id"@[1]);
}

/// A user created on a first sign-in is found again through the token it was given: the
/// token names the user's id, the user is stored under that id, and its stored token is the
/// token itself. So `authenticate` with that token signs that user in.
pub proof fn lemma_new_user_authenticates(
    items: Seq<Item>,
    email: Seq<char>,
    name: Seq<char>,
    picture_url: Seq<char>,
    now: Seq<char>,
)
    requires
        table_wf(items),
        sha3_256_hex(email).len() == 64,
        forall|i: int| 0 <= i < 64 ==> is_lower_hex(#[trigger] sha3_256_hex(email)[i]),
        user_of(
            user_item(user_id_text(email), email, name, picture_url, auth_token_text(email, now), now),
        ) is Ok,
    ensures
        ({
            let token = auth_token_text(email, now);
            let item = user_item(user_id_text(email), email, name, picture_url, token, now);
            let id = "USER_"@ + token_owner(token);
            &&& lookup(put_items(items, item), (id, id)) == Some(item)
            &&& user_of(item)->Ok_0.auth_token == token
        }),
{
    let token = auth_token_text(email, now);
    let id = user_id_text(email);
    let item = user_item(id, email, name, picture_url, token, now);
    lemma_fresh_token_names_user(email, now, token);
    lemma_user_item_key(id, email, name, picture_url, token, now);
    lemma_put_lookup(items, item, (id, id), (id, id));
    reveal_strlit("auth_token");
    reveal_strlit("created_at");
    assert("auth_token"@[0] != "created_at"@[0]);
    assert(crate::db::wire_string(item, "auth_token"@) == Some(token));
}

} // verus!
