use vstd::prelude::*;

use crate::db::{
    AttributeValue, Attributes, DbError, Timestamp, WireValue, opt_view, wire_bool, wire_string,
    wire_timestamp,
};
use crate::model::{DecodeFailure, DynamoDbListableModel, DynamoDbModel};
use crate::store::{
    Item, KeyCondition, MemoryTable, Selector, Update, keeps_key, lookup, put_items, query,
    removed_names, remove_all, selected, update_base, updated, views,
};

verus! {

pub type CommentId = String;

/// The sort-key prefix of every comment.
pub open spec fn comment_id_prefix() -> Seq<char> {
    "COMMENT_"@
}

/// The body that an erased comment shows.
pub open spec fn deleted_body() -> Seq<char> {
    "This comment has been deleted."@
}

/// A comment on a commentable resource, possibly a reply to another comment.
pub struct Comment {
    pub primary_key: String,
    pub id: CommentId,
    pub user_id: Option<String>,
    pub replies_to: Option<CommentId>,
    pub body: String,
    pub is_deleted: Option<bool>,
    pub created_at: Timestamp,
}

pub struct CommentView {
    pub primary_key: Seq<char>,
    pub id: Seq<char>,
    pub user_id: Option<Seq<char>>,
    pub replies_to: Option<Seq<char>>,
    pub body: Seq<char>,
    pub is_deleted: Option<bool>,
    pub created_at: Timestamp,
}

impl View for Comment {
    type V = CommentView;

    open spec fn view(&self) -> CommentView {
        CommentView {
            primary_key: self.primary_key@,
            id: self.id@,
            user_id: opt_view(self.user_id),
            replies_to: opt_view(self.replies_to),
            body: self.body@,
            is_deleted: self.is_deleted,
            created_at: self.created_at,
        }
    }
}

/// The comment that a stored item denotes: `primary_key`, `id`, `body` and `created_at` are
/// required; `user_id`, `replies_to` and `is_deleted` are optional.
pub open spec fn comment_of(m: Item) -> Result<CommentView, DecodeFailure> {
    match wire_string(m, "primary_key"@) {
        None => Err(DecodeFailure::Missing("primary_key"@)),
        Some(primary_key) => match wire_string(m, "id"@) {
            None => Err(DecodeFailure::Missing("id"@)),
            Some(id) => match wire_string(m, "body"@) {
                None => Err(DecodeFailure::Missing("body"@)),
                Some(body) => match wire_timestamp(m, "created_at"@) {
                    Err(true) => Err(DecodeFailure::Missing("created_at"@)),
                    Err(false) => Err(DecodeFailure::BadTimestamp("created_at"@)),
                    Ok(created_at) => Ok(
                        CommentView {
                            primary_key,
                            id,
                            user_id: wire_string(m, "user_id"@),
                            replies_to: wire_string(m, "replies_to"@),
                            body,
                            is_deleted: wire_bool(m, "is_deleted"@),
                            created_at,
                        },
                    ),
                },
            },
        },
    }
}

impl DynamoDbModel for Comment {
    open spec fn decode(m: Item) -> Result<CommentView, DecodeFailure> {
        comment_of(m)
    }

    proof fn lemma_decoded_has_key(m: Item) {
    }

    fn new(attributes: &Attributes) -> (r: Result<Comment, DbError>) {
        let primary_key = match attributes.string("primary_key") {
            Ok(s) => s,
            Err(e) => return Err(e),
        };
        let id = match attributes.string("id") {
            Ok(s) => s,
            Err(e) => return Err(e),
        };
        let user_id = attributes.optional_string("user_id");
        let replies_to = attributes.optional_string("replies_to");
        let body = match attributes.string("body") {
            Ok(s) => s,
            Err(e) => return Err(e),
        };
        let is_deleted = attributes.optional_bool("is_deleted");
        let created_at = match attributes.timestamp("created_at") {
            Ok(t) => t,
            Err(e) => return Err(e),
        };
        Ok(Comment { primary_key, id, user_id, replies_to, body, is_deleted, created_at })
    }
}

impl DynamoDbListableModel for Comment {
    open spec fn spec_id_prefix() -> Seq<char> {
        comment_id_prefix()
    }

    fn id_prefix() -> (r: String) {
        String::from_str("COMMENT_")
    }
}

/// The item written for a new comment.
pub open spec fn comment_item(
    commentable_id: Seq<char>,
    id: Seq<char>,
    user_id: Seq<char>,
    body: Seq<char>,
    replies_to: Option<Seq<char>>,
    created_at: Seq<char>,
) -> Item {
    let m = Map::empty().insert("primary_key"@, WireValue::S(commentable_id)).insert(
        "id"@,
        WireValue::S(id),
    ).insert("user_id"@, WireValue::S(user_id)).insert("body"@, WireValue::S(body)).insert(
        "created_at"@,
        WireValue::S(created_at),
    );
    match replies_to {
        Some(p) => m.insert("replies_to"@, WireValue::S(p)),
        None => m,
    }
}

/// The item that erasing makes of `m`: the soft-delete flag set, the body replaced, the
/// author unlinked.
pub open spec fn erased(m: Item) -> Item {
    m.insert("is_deleted"@, WireValue::Bool(true)).insert(
        "body"@,
        WireValue::S(deleted_body()),
    ).remove("user_id"@)
}

/// The selector of the replies to comment `id` in partition `primary_key`.
pub open spec fn replies_selector(primary_key: Seq<char>, id: Seq<char>) -> Selector {
    Selector::Index(primary_key, "replies_to"@, id)
}

impl Comment {
    /// The attributes of a new comment.
    pub fn attributes_for(
        commentable_id: String,
        id: String,
        user_id: String,
        body: String,
        replies_to: Option<String>,
        created_at: String,
    ) -> (r: Attributes)
        ensures
            r@ == comment_item(
                commentable_id@,
                id@,
                user_id@,
                body@,
                opt_view(replies_to),
                created_at@,
            ),
    {
        let mut a = Attributes::new();
        a.insert_string("primary_key", commentable_id);
        a.insert_string("id", id);
        a.insert_string("user_id", user_id);
        a.insert_string("body", body);
        a.insert_string("created_at", created_at);
        match replies_to {
            Some(p) => a.insert_string("replies_to", p),
            None => {},
        }
        a
    }

    /// Whether any comment of this comment's partition replies to it.
    pub fn has_replies(&self, db: &MemoryTable) -> (r: bool)
        requires
            db.wf(),
        ensures
            r == (selected(db@, replies_selector(self.primary_key@, self.id@)).len() > 0),
    {
        let condition = KeyCondition::Index {
            primary_key: self.primary_key.clone(),
            attribute: String::from_str("replies_to"),
            value: self.id.clone(),
        };
        let replies = query(db, &condition);
        replies.len() > 0
    }

    /// The update that erases a comment.
    pub fn erase_update() -> (r: Update)
        ensures
            keeps_key(&r),
            forall|m: Item| #[trigger] updated(m, &r) == erased(m),
    {
        let mut sets = Attributes::new();
        sets.insert(String::from_str("is_deleted"), AttributeValue::Bool(true));
        sets.insert(
            String::from_str("body"),
            AttributeValue::S(String::from_str("This comment has been deleted.")),
        );
        let mut removes: Vec<String> = Vec::new();
        removes.push(String::from_str("user_id"));
        let r = Update { sets, removes };
        proof {
            reveal_strlit("is_deleted");
            reveal_strlit("body");
            reveal_strlit("user_id");
            reveal_strlit("primary_key");
            reveal_strlit("id");
            assert("is_deleted"@.len() == 10 && "body"@.len() == 4 && "user_id"@.len() == 7);
            assert("primary_key"@.len() == 11 && "id"@.len() == 2);
            assert(removed_names(&r) =~= seq!["user_id"@]);
            assert forall|m: Item| #[trigger] updated(m, &r) == erased(m) by {
                assert(removed_names(&r).drop_last() =~= Seq::<Seq<char>>::empty());
                assert(m.union_prefer_right(r.sets@) =~= m.insert(
                    "is_deleted"@,
                    WireValue::Bool(true),
                ).insert("body"@, WireValue::S(deleted_body())));
                let base = m.union_prefer_right(r.sets@);
                assert(remove_all(base, removed_names(&r).drop_last()) == base);
                assert(remove_all(base, removed_names(&r)) == base.remove("user_id"@));
                assert(updated(m, &r) =~= erased(m));
            }
        }
        r
    }

    /// Soft-deletes this comment in place: the store's item keeps its key and position, gets
    /// the soft-delete flag and the placeholder body, and loses its author; so does `self`.
    pub fn erase(&mut self, db: &mut MemoryTable)
        requires
            old(db).wf(),
        ensures
            final(db).wf(),
            final(db).spec_page_size() == old(db).spec_page_size(),
            final(db).spec_unprocessed_percent() == old(db).spec_unprocessed_percent(),
            final(db)@ == put_items(
                old(db)@,
                erased(update_base(old(db)@, (old(self).primary_key@, old(self).id@))),
            ),
            crate::store::item_key(erased(update_base(old(db)@, (old(self).primary_key@, old(self).id@))))
                == Some((old(self).primary_key@, old(self).id@)),
            final(self)@ == (CommentView {
                body: deleted_body(),
                is_deleted: Some(true),
                user_id: None,
                ..old(self)@
            }),
    {
        let changes = Comment::erase_update();
        let _ = db.update_item(&self.primary_key, &self.id, &changes);
        self.body = String::from_str("This comment has been deleted.");
        self.is_deleted = Some(true);
        self.user_id = None;
    }
}

} // verus!
