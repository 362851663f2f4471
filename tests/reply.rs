use commentable_rs::comment::Comment;
use commentable_rs::db::{Attributes, DbError};
use commentable_rs::model::{DynamoDbListableModel, DynamoDbModel};
use commentable_rs::reply::{Reply, ReplyType};
use commentable_rs::store::{MemoryTable, Update};
use commentable_rs::actions::body_update;

fn reply_attrs(id: &str, kind: &str) -> Attributes {
    let mut a = Attributes::new();
    a.insert_string("primary_key", "ART".to_string());
    a.insert_string("id", id.to_string());
    a.insert_string("user_id", "USER_a".to_string());
    a.insert_string("comment_id", "COMMENT_1".to_string());
    a.insert_string("type", kind.to_string());
    a.insert_string("created_at", "2021-03-04T05:06:07Z".to_string());
    a
}

#[test]
fn reply_type_from_text() {
    assert_eq!(ReplyType::from_text(&"like".to_string()).ok(), Some(ReplyType::Like));
    match ReplyType::from_text(&"boo".to_string()) {
        Err(DbError::Error(m)) => assert_eq!(m, "Unsupported reaction type: boo"),
        _ => panic!("expected Error"),
    }
    assert_eq!(ReplyType::Like.describe(), "\"like\"");
}

#[test]
fn replies_are_listed_by_prefix() {
    let mut t = MemoryTable::new(1, 0);
    let r: Reply = Reply::create(&mut t, reply_attrs("REPLY_1", "like")).ok().unwrap();
    assert_eq!(r.reply_type, ReplyType::Like);
    let bad: Result<Reply, DbError> = Reply::create(&mut t, reply_attrs("REPLY_2", "boo"));
    assert!(matches!(bad, Err(DbError::Error(_))));
    let all: Vec<Reply> = Reply::list(&t, &"ART".to_string()).ok().unwrap();
    assert_eq!(all.len(), 1);
    assert_eq!(Reply::id_prefix(), "REPLY_");
}

#[test]
fn update_expression_text() {
    let e = Comment::erase_update();
    assert_eq!(e.expression(), "SET is_deleted = :is_deleted, body = :body REMOVE user_id");
    let v = e.expression_values();
    assert_eq!(v.optional_bool(":is_deleted"), Some(true));
    assert_eq!(v.optional_string(":body"), Some("This comment has been deleted.".to_string()));
    assert!(v.get("body").is_none());
    let b = body_update(&"new text".to_string());
    assert_eq!(b.expression(), "SET body = :body");
    assert_eq!(b.expression_values().optional_string(":body"), Some("new text".to_string()));
    let only_remove = Update { sets: Attributes::new(), removes: vec!["a".to_string(), "b".to_string()] };
    assert_eq!(only_remove.expression(), "REMOVE a, b");
}
