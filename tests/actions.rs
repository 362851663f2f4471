use commentable_rs::actions::{
    add_comment, add_reaction, authenticate, delete_comment, delete_or_erase, delete_reaction,
    edit_comment, fetch_comment, list_comments, sign_in,
};
use commentable_rs::comment::Comment;
use commentable_rs::http::Failure;
use commentable_rs::ids::hash;
use commentable_rs::model::{DynamoDbListableModel, DynamoDbModel};
use commentable_rs::reaction::Reaction;
use commentable_rs::store::MemoryTable;
use commentable_rs::user::User;

const NOW: &str = "2021-03-04T05:06:07Z";

fn art() -> String {
    "ART".to_string()
}

fn setup() -> (MemoryTable, User, User) {
    let mut t = MemoryTable::new(2, 0);
    let ann = sign_in(&mut t, &"ann@example.com".to_string(), &"Ann".to_string(), &"p1".to_string(), &NOW.to_string()).ok().unwrap();
    let bob = sign_in(&mut t, &"bob@example.com".to_string(), &"Bob".to_string(), &"p2".to_string(), &"2021-03-04T05:06:08Z".to_string()).ok().unwrap();
    (t, ann, bob)
}

fn post(t: &mut MemoryTable, author: &User, body: &str, parent: Option<&String>, millis: u64) -> Comment {
    add_comment(t, &art(), author, &body.to_string(), &parent.cloned(), &NOW.to_string(), millis).ok().unwrap()
}

#[test]
fn sign_in_creates_once() {
    let (mut t, ann, _) = setup();
    assert_eq!(ann.id, format!("USER_{}", hash("ann@example.com")));
    assert_eq!(ann.auth_token, format!("{}-=#=-{}", hash("ann@example.com"), hash(NOW)));
    let again = sign_in(&mut t, &"ann@example.com".to_string(), &"Other".to_string(), &"p".to_string(), &"2022-01-01T00:00:00Z".to_string()).ok().unwrap();
    assert_eq!(again.name, "Ann");
    assert_eq!(again.auth_token, ann.auth_token);
}

#[test]
fn authenticate_checks_token() {
    let (t, ann, _) = setup();
    let u = authenticate(&t, &Some(ann.auth_token.clone())).ok().unwrap();
    assert_eq!(u.id, ann.id);
    let wrong = format!("{}-=#=-nope", hash("ann@example.com"));
    assert!(matches!(authenticate(&t, &Some(wrong)), Err(Failure::Unauthorized(_))));
    assert!(matches!(authenticate(&t, &None), Err(Failure::Unauthorized(_))));
    assert!(matches!(authenticate(&t, &Some("stranger-=#=-x".to_string())), Err(Failure::Unauthorized(_))));
}

#[test]
fn reply_needs_existing_parent() {
    let (mut t, ann, _) = setup();
    let r = add_comment(&mut t, &art(), &ann, &"hi".to_string(), &Some("COMMENT_none".to_string()), &NOW.to_string(), 1);
    assert!(matches!(r, Err(Failure::BadRequest(_))));
    let c = post(&mut t, &ann, "hi", None, 1);
    assert!(c.id.starts_with("COMMENT_1"));
    let d = post(&mut t, &ann, "re", Some(&c.id), 2);
    assert_eq!(d.replies_to, Some(c.id.clone()));
}

#[test]
fn second_identical_reaction_conflicts() {
    let (mut t, ann, _) = setup();
    let c = post(&mut t, &ann, "hi", None, 1);
    let first = add_reaction(&mut t, &art(), &ann, &c.id, &"like".to_string(), &NOW.to_string());
    assert!(first.is_ok());
    let second = add_reaction(&mut t, &art(), &ann, &c.id, &"like".to_string(), &"2021-03-04T05:06:09Z".to_string());
    match second {
        Err(f) => assert_eq!(f.status_code(), 409),
        Ok(_) => panic!("a repeated reaction must conflict"),
    }
    let other_type = add_reaction(&mut t, &art(), &ann, &c.id, &"heart".to_string(), &NOW.to_string());
    assert!(other_type.is_ok());
}

#[test]
fn reaction_to_absent_comment_is_not_found() {
    let (mut t, ann, _) = setup();
    let r = add_reaction(&mut t, &art(), &ann, &"COMMENT_x".to_string(), &"like".to_string(), &NOW.to_string());
    assert!(matches!(r, Err(Failure::NotFound(_))));
}

#[test]
fn delete_reaction_removes_it() {
    let (mut t, ann, _) = setup();
    let c = post(&mut t, &ann, "hi", None, 1);
    let r = add_reaction(&mut t, &art(), &ann, &c.id, &"like".to_string(), &NOW.to_string()).ok().unwrap();
    assert!(delete_reaction(&mut t, &art(), &ann, &c.id, &"like".to_string()).is_ok());
    let gone: Option<Reaction> = Reaction::find(&t, &art(), &r.id).ok().unwrap();
    assert!(gone.is_none());
    assert!(matches!(delete_reaction(&mut t, &art(), &ann, &c.id, &"like".to_string()), Err(Failure::BadRequest(_))));
}

#[test]
fn delete_without_replies_removes_comment() {
    let (mut t, ann, bob) = setup();
    let c = post(&mut t, &ann, "hi", None, 1);
    let _r = add_reaction(&mut t, &art(), &bob, &c.id, &"like".to_string(), &NOW.to_string()).ok().unwrap();
    let kept = delete_comment(&mut t, &art(), &ann, &c.id).ok().unwrap();
    assert!(kept.is_none());
    assert!(matches!(fetch_comment(&t, &art(), &c.id), Err(Failure::NotFound(_))));
    let reactions: Vec<Reaction> = Reaction::list(&t, &art()).ok().unwrap();
    assert!(reactions.is_empty());
}

#[test]
fn delete_with_replies_erases_comment() {
    let (mut t, ann, bob) = setup();
    let c = post(&mut t, &ann, "hi", None, 1);
    let reply = post(&mut t, &bob, "re", Some(&c.id), 2);
    let erased = delete_comment(&mut t, &art(), &ann, &c.id).ok().unwrap().unwrap();
    assert_eq!(erased.body, "This comment has been deleted.");
    assert_eq!(erased.user_id, None);
    assert_eq!(erased.is_deleted, Some(true));
    let found = fetch_comment(&t, &art(), &c.id).ok().unwrap();
    assert_eq!(found.id, c.id);
    assert_eq!(found.body, "This comment has been deleted.");
    assert_eq!(found.user_id, None);
    assert_eq!(found.is_deleted, Some(true));
    let forest = list_comments(&t, &art(), &None).ok().unwrap();
    assert_eq!(forest.len(), 1);
    assert_eq!(forest[0].id, c.id);
    assert!(forest[0].user.is_none());
    assert_eq!(forest[0].replies.len(), 1);
    assert_eq!(forest[0].replies[0].id, reply.id);
}

#[test]
fn delete_or_erase_reports_unfinished_reaction_removal() {
    let mut t = MemoryTable::new(2, 100);
    let ann = sign_in(&mut t, &"ann@example.com".to_string(), &"Ann".to_string(), &"p1".to_string(), &NOW.to_string()).ok().unwrap();
    let c = post(&mut t, &ann, "hi", None, 1);
    let _r = add_reaction(&mut t, &art(), &ann, &c.id, &"like".to_string(), &NOW.to_string()).ok().unwrap();
    let comment = fetch_comment(&t, &art(), &c.id).ok().unwrap();
    assert!(matches!(delete_or_erase(&mut t, comment), Err(commentable_rs::db::DbError::PartialFailure(1))));
    assert!(fetch_comment(&t, &art(), &c.id).is_ok());
}

#[test]
fn only_author_edits_or_deletes() {
    let (mut t, ann, bob) = setup();
    let c = post(&mut t, &ann, "hi", None, 1);
    assert!(matches!(edit_comment(&mut t, &art(), &bob, &c.id, &"x".to_string()), Err(Failure::Forbidden(_))));
    assert!(matches!(delete_comment(&mut t, &art(), &bob, &c.id), Err(Failure::Forbidden(_))));
    let e = edit_comment(&mut t, &art(), &ann, &c.id, &"edited".to_string()).ok().unwrap();
    assert_eq!(e.body, "edited");
    assert_eq!(fetch_comment(&t, &art(), &c.id).ok().unwrap().body, "edited");
}

#[test]
fn listing_through_the_store() {
    let (mut t, ann, bob) = setup();
    let a = post(&mut t, &ann, "a", None, 1);
    let b = post(&mut t, &bob, "b", Some(&a.id), 2);
    let _ = add_reaction(&mut t, &art(), &ann, &a.id, &"like".to_string(), &NOW.to_string()).ok().unwrap();
    let _ = add_reaction(&mut t, &art(), &bob, &a.id, &"like".to_string(), &NOW.to_string()).ok().unwrap();
    let forest = list_comments(&t, &art(), &Some(bob.id.clone())).ok().unwrap();
    assert_eq!(forest.len(), 1);
    assert_eq!(forest[0].user.as_ref().unwrap().name, "Ann");
    assert_eq!(forest[0].reactions, vec![("like".to_string(), 2)]);
    assert_eq!(forest[0].user_reactions, vec!["like".to_string()]);
    assert_eq!(forest[0].replies[0].id, b.id);
    assert_eq!(forest[0].replies[0].user.as_ref().unwrap().name, "Bob");
}
