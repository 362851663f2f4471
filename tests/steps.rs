use commentable_rs::actions::{removal_for, Removal};
use commentable_rs::db::{Attributes, DbError};
use commentable_rs::http::require_params;
use commentable_rs::ids::{auth_token, hash, token_user_id, user_id_for_email};
use commentable_rs::store::{batch_delete, keys_of, MemoryTable};
use commentable_rs::user::distinct_ids;

fn keyed(pk: &str, id: &str) -> Attributes {
    let mut a = Attributes::new();
    a.insert_string("primary_key", pk.to_string());
    a.insert_string("id", id.to_string());
    a
}

fn keys(n: usize) -> Vec<(String, String)> {
    (0..n).map(|i| ("A".to_string(), format!("R{:03}", i))).collect()
}

fn table_with(n: usize, percent: usize) -> MemoryTable {
    let mut t = MemoryTable::new(10, percent);
    for (pk, id) in keys(n) {
        assert!(t.put_item(keyed(&pk, &id)).is_ok());
    }
    t
}

#[test]
fn single_key_with_half_unprocessed_is_deleted() {
    let mut t = table_with(1, 50);
    assert!(batch_delete(&mut t, keys(1)).is_ok());
    assert!(t.get_item(&"A".to_string(), &"R000".to_string()).is_none());
}

#[test]
fn nothing_processed_reports_every_key() {
    let mut t = table_with(7, 100);
    assert!(matches!(batch_delete(&mut t, keys(7)), Err(DbError::PartialFailure(7))));
}

#[test]
fn half_unprocessed_leaves_what_the_ceiling_allows() {
    // 25 keys: 12, then 6, then 3 left after the three allowed writes
    let mut t = table_with(25, 50);
    assert!(matches!(batch_delete(&mut t, keys(25)), Err(DbError::PartialFailure(3))));
}

#[test]
fn keys_of_refuses_unkeyed_items() {
    let items = vec![keyed("A", "1"), keyed("A", "2")];
    assert_eq!(keys_of(&items).ok().unwrap(), vec![("A".to_string(), "1".to_string()), ("A".to_string(), "2".to_string())]);
    let mut bad = Attributes::new();
    bad.insert_string("primary_key", "A".to_string());
    assert!(matches!(keys_of(&vec![keyed("A", "1"), bad]), Err(DbError::RecordInvalid(_))));
}

#[test]
fn distinct_ids_keeps_first_occurrences() {
    let ids: Vec<String> = ["U1", "U2", "U1", "U3", "U2"].iter().map(|s| s.to_string()).collect();
    assert_eq!(distinct_ids(&ids), vec!["U1".to_string(), "U2".to_string(), "U3".to_string()]);
    assert!(distinct_ids(&vec![]).is_empty());
}

#[test]
fn removal_depends_on_replies() {
    assert!(matches!(removal_for(false), Removal::Delete));
    match removal_for(true) {
        Removal::Erase(u) => assert_eq!(u.expression(), "SET is_deleted = :is_deleted, body = :body REMOVE user_id"),
        Removal::Delete => panic!("a comment with replies is erased"),
    }
}

#[test]
fn fresh_token_names_its_user() {
    let email = "ann@example.com".to_string();
    let token = auth_token(&email, &"2021-03-04T05:06:07Z".to_string());
    assert_eq!(token, format!("{}-=#=-{}", hash("ann@example.com"), hash("2021-03-04T05:06:07Z")));
    assert_eq!(token_user_id(&token), user_id_for_email(&email));
    assert_eq!(hash("x").len(), 64);
}

#[test]
fn unicode_white_space_is_blank() {
    assert!(require_params(&vec![("body", "\u{3000}\u{2028}\u{85}")]).is_err());
    assert!(require_params(&vec![("body", "\u{200B}")]).is_ok());
}
