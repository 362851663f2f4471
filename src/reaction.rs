use vstd::prelude::*;

use crate::db::{Attributes, DbError, Timestamp, WireValue, wire_string, wire_timestamp};
use crate::model::{DecodeFailure, DynamoDbListableModel, DynamoDbModel};
use crate::store::{
    Item, KeyCondition, MemoryTable, Selector, batch_delete, batch_delete_leaves, lookup, selected,
    selected_key, selected_keys,
};

verus! {

pub type ReactionId = String;

pub type ReactionType = String;

/// The sort-key prefix of every reaction.
pub open spec fn reaction_id_prefix() -> Seq<char> {
    "REACTION_"@
}

/// One user's reaction of one type to one comment.
pub struct Reaction {
    pub primary_key: String,
    pub id: ReactionId,
    pub user_id: String,
    pub comment_id: String,
    pub reaction_type: ReactionType,
    pub created_at: Timestamp,
}

pub struct ReactionView {
    pub primary_key: Seq<char>,
    pub id: Seq<char>,
    pub user_id: Seq<char>,
    pub comment_id: Seq<char>,
    pub reaction_type: Seq<char>,
    pub created_at: Timestamp,
}

impl View for Reaction {
    type V = ReactionView;

    open spec fn view(&self) -> ReactionView {
        ReactionView {
            primary_key: self.primary_key@,
            id: self.id@,
            user_id: self.user_id@,
            comment_id: self.comment_id@,
            reaction_type: self.reaction_type@,
            created_at: self.created_at,
        }
    }
}

/// The reaction that a stored item denotes; every field is required, the type under `type`.
pub open spec fn reaction_of(m: Item) -> Result<ReactionView, DecodeFailure> {
    match wire_string(m, "primary_key"@) {
        None => Err(DecodeFailure::Missing("primary_key"@)),
        Some(primary_key) => match wire_string(m, "id"@) {
            None => Err(DecodeFailure::Missing("id"@)),
            Some(id) => match wire_string(m, "user_id"@) {
                None => Err(DecodeFailure::Missing("user_id"@)),
                Some(user_id) => match wire_string(m, "comment_id"@) {
                    None => Err(DecodeFailure::Missing("comment_id"@)),
                    Some(comment_id) => match wire_string(m, "type"@) {
                        None => Err(DecodeFailure::Missing("type"@)),
                        Some(reaction_type) => match wire_timestamp(m, "created_at"@) {
                            Err(true) => Err(DecodeFailure::Missing("created_at"@)),
                            Err(false) => Err(DecodeFailure::BadTimestamp("created_at"@)),
                            Ok(created_at) => Ok(
                                ReactionView {
                                    primary_key,
                                    id,
                                    user_id,
                                    comment_id,
                                    reaction_type,
                                    created_at,
                                },
                            ),
                        },
                    },
                },
            },
        },
    }
}

impl DynamoDbModel for Reaction {
    open spec fn decode(m: Item) -> Result<ReactionView, DecodeFailure> {
        reaction_of(m)
    }

    proof fn lemma_decoded_has_key(m: Item) {
    }

    fn new(attributes: &Attributes) -> (r: Result<Reaction, DbError>) {
        let primary_key = match attributes.string("primary_key") {
            Ok(s) => s,
            Err(e) => return Err(e),
        };
        let id = match attributes.string("id") {
            Ok(s) => s,
            Err(e) => return Err(e),
        };
        let user_id = match attributes.string("user_id") {
            Ok(s) => s,
            Err(e) => return Err(e),
        };
        let comment_id = match attributes.string("comment_id") {
            Ok(s) => s,
            Err(e) => return Err(e),
        };
        let reaction_type = match attributes.string("type") {
            Ok(s) => s,
            Err(e) => return Err(e),
        };
        let created_at = match attributes.timestamp("created_at") {
            Ok(t) => t,
            Err(e) => return Err(e),
        };
        Ok(Reaction { primary_key, id, user_id, comment_id, reaction_type, created_at })
    }
}

impl DynamoDbListableModel for Reaction {
    open spec fn spec_id_prefix() -> Seq<char> {
        reaction_id_prefix()
    }

    fn id_prefix() -> (r: String) {
        String::from_str("REACTION_")
    }
}

/// The item written for a new reaction.
pub open spec fn reaction_item(
    commentable_id: Seq<char>,
    id: Seq<char>,
    user_id: Seq<char>,
    comment_id: Seq<char>,
    reaction_type: Seq<char>,
    created_at: Seq<char>,
) -> Item {
    Map::empty().insert("primary_key"@, WireValue::S(commentable_id)).insert(
        "id"@,
        WireValue::S(id),
    ).insert("user_id"@, WireValue::S(user_id)).insert(
        "comment_id"@,
        WireValue::S(comment_id),
    ).insert("type"@, WireValue::S(reaction_type)).insert(
        "created_at"@,
        WireValue::S(created_at),
    )
}

/// The selector of the reactions to comment `comment_id` in partition `commentable_id`.
pub open spec fn reactions_selector(commentable_id: Seq<char>, comment_id: Seq<char>) -> Selector {
    Selector::Index(commentable_id, "comment_id"@, comment_id)
}

impl Reaction {
    /// The attributes of a new reaction.
    pub fn attributes_for(
        commentable_id: String,
        id: String,
        user_id: String,
        comment_id: String,
        reaction_type: String,
        created_at: String,
    ) -> (r: Attributes)
        ensures
            r@ == reaction_item(
                commentable_id@,
                id@,
                user_id@,
                comment_id@,
                reaction_type@,
                created_at@,
            ),
    {
        let mut a = Attributes::new();
        a.insert_string("primary_key", commentable_id);
        a.insert_string("id", id);
        a.insert_string("user_id", user_id);
        a.insert_string("comment_id", comment_id);
        a.insert_string("type", reaction_type);
        a.insert_string("created_at", created_at);
        a
    }

    /// Deletes every reaction to comment `comment_id`, found through the reactions index, with
    /// one bounded batch delete. Items that are no such reaction stay as they were.
    pub fn remove_all_for_comment(
        db: &mut MemoryTable,
        commentable_id: &String,
        comment_id: &String,
    ) -> (r: Result<(), DbError>)
        requires
            old(db).wf(),
        ensures
            final(db).wf(),
            final(db).spec_page_size() == old(db).spec_page_size(),
            final(db).spec_unprocessed_percent() == old(db).spec_unprocessed_percent(),
            forall|k: (Seq<char>, Seq<char>)|
                #![trigger lookup(final(db)@, k)]
                !selected_key(old(db)@, reactions_selector(commentable_id@, comment_id@), k)
                    ==> lookup(final(db)@, k) == lookup(old(db)@, k),
            r is Ok ==> forall|k: (Seq<char>, Seq<char>)|
                #![trigger lookup(final(db)@, k)]
                selected_key(old(db)@, reactions_selector(commentable_id@, comment_id@), k)
                    ==> lookup(final(db)@, k) is None,
            r is Err ==> r matches Err(DbError::PartialFailure(_)),
            (r is Ok) <==> batch_delete_leaves(
                selected(old(db)@, reactions_selector(commentable_id@, comment_id@)).len(),
                old(db).spec_unprocessed_percent(),
            ) == 0,
            r matches Err(DbError::PartialFailure(n)) ==> n == batch_delete_leaves(
                selected(old(db)@, reactions_selector(commentable_id@, comment_id@)).len(),
                old(db).spec_unprocessed_percent(),
            ),
            old(db).spec_unprocessed_percent() == 0 ==> r is Ok,
    {
        let condition = KeyCondition::Index {
            primary_key: commentable_id.clone(),
            attribute: String::from_str("comment_id"),
            value: comment_id.clone(),
        };
        let keys = selected_keys(db, &condition);
        if keys.len() > 0 {
            batch_delete(db, keys)
        } else {
            proof {
                assert forall|k: (Seq<char>, Seq<char>)| !selected_key(
                    db@,
                    reactions_selector(commentable_id@, comment_id@),
                    k,
                ) by {
                    assert(crate::store::key_views(keys@).len() == 0);
                    assert(!crate::store::has_key_pair(keys@, k));
                }
            }
            Ok(())
        }
    }
}

} // verus!
