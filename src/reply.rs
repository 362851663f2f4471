use vstd::prelude::*;

use crate::db::{Attributes, DbError, Timestamp, wire_string, wire_timestamp};
use crate::model::{
    DecodeFailure, DynamoDbListableModel, DynamoDbModel, unsupported_type_text,
};
use crate::store::Item;

verus! {

pub type ReplyId = String;

/// The kinds of reply reaction.
#[derive(PartialEq, Eq, Structural, Clone, Copy, Debug)]
pub enum ReplyType {
    Like,
}

/// The reply type that a stored text names.
pub open spec fn reply_type_of(text: Seq<char>) -> Option<ReplyType> {
    if text == "like"@ {
        Some(ReplyType::Like)
    } else {
        None
    }
}

impl ReplyType {
    /// The reply type that `text` names; an unknown one is an `Error`.
    pub fn from_text(text: &String) -> (r: Result<ReplyType, DbError>)
        ensures
            match reply_type_of(text@) {
                Some(t) => r == Ok::<ReplyType, DbError>(t),
                None => r matches Err(DbError::Error(m)) && m@ == unsupported_type_text(text@),
            },
    {
        if *text == String::from_str("like") {
            Ok(ReplyType::Like)
        } else {
            Err(DbError::Error(String::from_str("Unsupported reaction type: ").concat(text.as_str())))
        }
    }

    /// The type as a quoted word, as it is shown.
    pub fn describe(&self) -> (r: String)
        ensures
            r@ == "\"like\""@,
    {
        String::from_str("\"like\"")
    }
}

/// A reply reaction to a comment, of a known type.
pub struct Reply {
    pub primary_key: String,
    pub id: ReplyId,
    pub user_id: String,
    pub comment_id: String,
    pub reply_type: ReplyType,
    pub created_at: Timestamp,
}

pub struct ReplyView {
    pub primary_key: Seq<char>,
    pub id: Seq<char>,
    pub user_id: Seq<char>,
    pub comment_id: Seq<char>,
    pub reply_type: ReplyType,
    pub created_at: Timestamp,
}

impl View for Reply {
    type V = ReplyView;

    open spec fn view(&self) -> ReplyView {
        ReplyView {
            primary_key: self.primary_key@,
            id: self.id@,
            user_id: self.user_id@,
            comment_id: self.comment_id@,
            reply_type: self.reply_type,
            created_at: self.created_at,
        }
    }
}

/// The reply that a stored item denotes; every field is required, and the type under `type`
/// must be a known one.
pub open spec fn reply_of(m: Item) -> Result<ReplyView, DecodeFailure> {
    match wire_string(m, "primary_key"@) {
        None => Err(DecodeFailure::Missing("primary_key"@)),
        Some(primary_key) => match wire_string(m, "id"@) {
            None => Err(DecodeFailure::Missing("id"@)),
            Some(id) => match wire_string(m, "user_id"@) {
                None => Err(DecodeFailure::Missing("user_id"@)),
                Some(user_id) => match wire_string(m, "comment_id"@) {
                    None => Err(DecodeFailure::Missing("comment_id"@)),
                    Some(comment_id) => match wire_string(m, "type"@) {
                        None => Err(DecodeFailure::Missing("type"@)),
                        Some(kind) => match reply_type_of(kind) {
                            None => Err(DecodeFailure::UnsupportedType(kind)),
                            Some(reply_type) => match wire_timestamp(m, "created_at"@) {
                                Err(true) => Err(DecodeFailure::Missing("created_at"@)),
                                Err(false) => Err(DecodeFailure::BadTimestamp("created_at"@)),
                                Ok(created_at) => Ok(
                                    ReplyView {
                                        primary_key,
                                        id,
                                        user_id,
                                        comment_id,
                                        reply_type,
                                        created_at,
                                    },
                                ),
                            },
                        },
                    },
                },
            },
        },
    }
}

impl DynamoDbModel for Reply {
    open spec fn decode(m: Item) -> Result<ReplyView, DecodeFailure> {
        reply_of(m)
    }

    proof fn lemma_decoded_has_key(m: Item) {
    }

    fn new(attributes: &Attributes) -> (r: Result<Reply, DbError>) {
        let primary_key = match attributes.string("primary_key") {
            Ok(s) => s,
            Err(e) => return Err(e),
        };
        let id = match attributes.string("id") {
            Ok(s) => s,
            Err(e) => return Err(e),
        };
        let user_id = match attributes.string("user_id") {
            Ok(s) => s,
            Err(e) => return Err(e),
        };
        let comment_id = match attributes.string("comment_id") {
            Ok(s) => s,
            Err(e) => return Err(e),
        };
        let kind = match attributes.string("type") {
            Ok(s) => s,
            Err(e) => return Err(e),
        };
        let reply_type = match ReplyType::from_text(&kind) {
            Ok(t) => t,
            Err(e) => return Err(e),
        };
        let created_at = match attributes.timestamp("created_at") {
            Ok(t) => t,
            Err(e) => return Err(e),
        };
        Ok(Reply { primary_key, id, user_id, comment_id, reply_type, created_at })
    }
}

impl DynamoDbListableModel for Reply {
    open spec fn spec_id_prefix() -> Seq<char> {
        "REPLY_"@
    }

    fn id_prefix() -> (r: String) {
        String::from_str("REPLY_")
    }
}

} // verus!
