use commentable_rs::comment::Comment;
use commentable_rs::db::{DbError, Timestamp};
use commentable_rs::ids::{
    comment_id, decimal_text, hash, reaction_id, token_user_id, user_id_for_email,
};
use commentable_rs::model::{DynamoDbListableModel, DynamoDbModel};
use commentable_rs::reaction::Reaction;
use commentable_rs::store::{MemoryTable, Update};
use commentable_rs::db::Attributes;
use commentable_rs::user::User;

const T0: &str = "2021-03-04T05:06:07Z";

fn comment_attrs(pk: &str, id: &str, user: &str, parent: Option<&str>) -> Attributes {
    Comment::attributes_for(
        pk.to_string(),
        id.to_string(),
        user.to_string(),
        format!("body of {}", id),
        parent.map(|p| p.to_string()),
        T0.to_string(),
    )
}

#[test]
fn comment_round_trip() {
    let mut t = MemoryTable::new(3, 0);
    let created: Comment = Comment::create(&mut t, comment_attrs("ART", "COMMENT_1", "USER_a", Some("COMMENT_0"))).ok().unwrap();
    let found: Comment = Comment::find(&t, &"ART".to_string(), &"COMMENT_1".to_string()).ok().unwrap().unwrap();
    assert_eq!(found.primary_key, created.primary_key);
    assert_eq!(found.id, "COMMENT_1");
    assert_eq!(found.user_id, Some("USER_a".to_string()));
    assert_eq!(found.replies_to, Some("COMMENT_0".to_string()));
    assert_eq!(found.body, "body of COMMENT_1");
    assert_eq!(found.is_deleted, None);
    assert_eq!(found.created_at, Timestamp { seconds: 1614834367, nanos: 0 });
    assert_eq!(found.created_at, created.created_at);
}

#[test]
fn reaction_round_trip() {
    let mut t = MemoryTable::new(3, 0);
    let a = Reaction::attributes_for(
        "ART".to_string(),
        "REACTION_x".to_string(),
        "USER_a".to_string(),
        "COMMENT_1".to_string(),
        "like".to_string(),
        T0.to_string(),
    );
    let created: Reaction = Reaction::create(&mut t, a).ok().unwrap();
    let found: Reaction = Reaction::find(&t, &"ART".to_string(), &"REACTION_x".to_string()).ok().unwrap().unwrap();
    assert_eq!(found.reaction_type, "like");
    assert_eq!(found.comment_id, created.comment_id);
    assert_eq!(found.user_id, "USER_a");
    assert_eq!(found.created_at, created.created_at);
}

#[test]
fn user_round_trip() {
    let mut t = MemoryTable::new(3, 0);
    let a = User::attributes_for(
        "USER_a".to_string(),
        "a@example.com".to_string(),
        "Ann".to_string(),
        "http://pic".to_string(),
        "tok".to_string(),
        T0.to_string(),
    );
    let created: User = User::create(&mut t, a).ok().unwrap();
    let found: User = User::find(&t, &"USER_a".to_string(), &"USER_a".to_string()).ok().unwrap().unwrap();
    assert_eq!(found.primary_key, "USER_a");
    assert_eq!(found.email, created.email);
    assert_eq!(found.name, "Ann");
    assert_eq!(found.picture_url, "http://pic");
    assert_eq!(found.auth_token, "tok");
}

#[test]
fn find_absent_is_none() {
    let t = MemoryTable::new(3, 0);
    let r: Result<Option<Comment>, DbError> = Comment::find(&t, &"ART".to_string(), &"COMMENT_9".to_string());
    assert!(matches!(r, Ok(None)));
}

#[test]
fn create_invalid_record_is_refused() {
    let mut t = MemoryTable::new(3, 0);
    let mut a = Attributes::new();
    a.insert_string("primary_key", "ART".to_string());
    a.insert_string("id", "COMMENT_1".to_string());
    let r: Result<Comment, DbError> = Comment::create(&mut t, a);
    match r {
        Err(DbError::RecordInvalid(m)) => assert_eq!(m, "Missing field 'body'."),
        _ => panic!("expected RecordInvalid"),
    }
    let none: Result<Option<Comment>, DbError> = Comment::find(&t, &"ART".to_string(), &"COMMENT_1".to_string());
    assert!(matches!(none, Ok(None)));
}

#[test]
fn update_replaces_and_removes() {
    let mut t = MemoryTable::new(3, 0);
    let _c: Comment = Comment::create(&mut t, comment_attrs("ART", "COMMENT_1", "USER_a", None)).ok().unwrap();
    let mut sets = Attributes::new();
    sets.insert_string("body", "new".to_string());
    let changes = Update { sets, removes: vec!["user_id".to_string()] };
    let u: Comment = Comment::update(&mut t, &"ART".to_string(), &"COMMENT_1".to_string(), &changes).ok().unwrap();
    assert_eq!(u.body, "new");
    assert_eq!(u.user_id, None);
}

#[test]
fn list_by_prefix() {
    let mut t = MemoryTable::new(2, 0);
    for i in 0..5 {
        let _c: Comment = Comment::create(&mut t, comment_attrs("ART", &format!("COMMENT_{}", i), "USER_a", None)).ok().unwrap();
    }
    let _o: Comment = Comment::create(&mut t, comment_attrs("OTHER", "COMMENT_9", "USER_a", None)).ok().unwrap();
    let cs: Vec<Comment> = Comment::list(&t, &"ART".to_string()).ok().unwrap();
    assert_eq!(cs.len(), 5);
    let rs: Vec<Reaction> = Reaction::list(&t, &"ART".to_string()).ok().unwrap();
    assert!(rs.is_empty());
    assert_eq!(Comment::id_prefix(), "COMMENT_");
    assert_eq!(Reaction::id_prefix(), "REACTION_");
}

#[test]
fn new_reports_first_missing_field() {
    let mut a = Attributes::new();
    a.insert_string("primary_key", "ART".to_string());
    match <Reaction as DynamoDbModel>::new(&a) {
        Err(DbError::RecordInvalid(m)) => assert_eq!(m, "Missing field 'id'."),
        _ => panic!("expected RecordInvalid"),
    }
}

#[test]
fn batch_get_skips_missing_users() {
    let mut t = MemoryTable::new(3, 0);
    for id in ["USER_a", "USER_b"] {
        let a = User::attributes_for(id.to_string(), "e".to_string(), id.to_string(), "p".to_string(), "t".to_string(), T0.to_string());
        let _u: User = User::create(&mut t, a).ok().unwrap();
    }
    let ids = vec!["USER_b".to_string(), "USER_x".to_string(), "USER_a".to_string()];
    let users = User::batch_get(&t, &ids).ok().unwrap();
    let names: Vec<String> = users.iter().map(|u| u.name.clone()).collect();
    assert_eq!(names, vec!["USER_b".to_string(), "USER_a".to_string()]);
}

#[test]
fn sha3_digest_of_empty_text() {
    assert_eq!(hash(""), "a7ffc6f8bf1ed76651c14756a061d662f580ff4de43b49fa82d80a4b80f8434a");
}

#[test]
fn sha3_digest_of_abc() {
    assert_eq!(hash("abc"), "3a985da74fe225b2045c172d6bd390bd855f086e3e9d525b46bfe24511431532");
}

#[test]
fn decimal_digits() {
    assert_eq!(decimal_text(0), "0");
    assert_eq!(decimal_text(7), "7");
    assert_eq!(decimal_text(1614834367000), "1614834367000");
    assert_eq!(decimal_text(u64::MAX), "18446744073709551615");
}

#[test]
fn comment_id_shape() {
    let id = comment_id(&"ART".to_string(), &"USER_a".to_string(), T0, 1614834367000);
    assert_eq!(id, format!("COMMENT_1614834367000{}", hash(&format!("ARTUSER_a{}", T0))));
}

#[test]
fn reaction_id_is_deterministic() {
    let a = reaction_id(&"COMMENT_1".to_string(), &"USER_a".to_string(), &"like".to_string());
    let b = reaction_id(&"COMMENT_1".to_string(), &"USER_a".to_string(), &"like".to_string());
    let c = reaction_id(&"COMMENT_1".to_string(), &"USER_a".to_string(), &"heart".to_string());
    assert_eq!(a, b);
    assert_ne!(a, c);
    assert_eq!(a, format!("REACTION_{}", hash("COMMENT_1USER_alike")));
}

#[test]
fn user_id_from_email() {
    assert_eq!(user_id_for_email(&"a@example.com".to_string()), format!("USER_{}", hash("a@example.com")));
}

#[test]
fn token_names_user() {
    assert_eq!(token_user_id("abc-=#=-secret"), "USER_abc");
    assert_eq!(token_user_id("abc-=#=-x-=#=-y"), "USER_abc");
    assert_eq!(token_user_id("plain"), "USER_plain");
    assert_eq!(token_user_id(""), "USER_");
}
