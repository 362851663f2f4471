use commentable_rs::comment::Comment;
use commentable_rs::db::{DbError, Timestamp};
use commentable_rs::reaction::Reaction;
use commentable_rs::tree::{build_comment_tree, id_less, sort_by_id, CommentNode};
use commentable_rs::user::User;

fn at() -> Timestamp {
    Timestamp { seconds: 0, nanos: 0 }
}

fn comment(id: &str, user: Option<&str>, parent: Option<&str>) -> Comment {
    Comment {
        primary_key: "ART".to_string(),
        id: id.to_string(),
        user_id: user.map(|u| u.to_string()),
        replies_to: parent.map(|p| p.to_string()),
        body: format!("text {}", id),
        is_deleted: None,
        created_at: at(),
    }
}

fn reaction(comment: &str, user: &str, kind: &str) -> Reaction {
    Reaction {
        primary_key: "ART".to_string(),
        id: format!("REACTION_{}{}{}", comment, user, kind),
        user_id: user.to_string(),
        comment_id: comment.to_string(),
        reaction_type: kind.to_string(),
        created_at: at(),
    }
}

fn user(id: &str) -> User {
    User {
        primary_key: id.to_string(),
        id: id.to_string(),
        email: format!("{}@example.com", id),
        name: format!("name {}", id),
        picture_url: format!("http://pic/{}", id),
        auth_token: "t".to_string(),
        created_at: at(),
    }
}

fn count(node: &CommentNode, kind: &str) -> Option<usize> {
    node.reactions.iter().find(|(t, _)| t == kind).map(|(_, c)| *c)
}

#[test]
fn chain_of_replies_nests() {
    let comments = vec![comment("A", None, None), comment("B", None, Some("A")), comment("C", None, Some("B"))];
    let forest = build_comment_tree(&comments, &vec![], &vec![], &None).ok().unwrap();
    assert_eq!(forest.len(), 1);
    let a = &forest[0];
    assert_eq!(a.id, "A");
    assert!(a.reactions.is_empty());
    assert_eq!(a.replies.len(), 1);
    let b = &a.replies[0];
    assert_eq!(b.id, "B");
    assert!(b.reactions.is_empty());
    assert_eq!(b.replies.len(), 1);
    let c = &b.replies[0];
    assert_eq!(c.id, "C");
    assert!(c.reactions.is_empty());
    assert!(c.replies.is_empty());
}

#[test]
fn reactions_are_counted_and_own_ones_listed() {
    let comments = vec![comment("A", None, None)];
    let reactions = vec![reaction("A", "U1", "like"), reaction("A", "U2", "like"), reaction("A", "U1", "heart")];
    let forest = build_comment_tree(&comments, &reactions, &vec![], &Some("U1".to_string())).ok().unwrap();
    let a = &forest[0];
    assert_eq!(a.reactions.len(), 2);
    assert_eq!(count(a, "like"), Some(2));
    assert_eq!(count(a, "heart"), Some(1));
    assert_eq!(a.user_reactions, vec!["like".to_string(), "heart".to_string()]);
}

#[test]
fn reactions_without_requester_are_not_own() {
    let comments = vec![comment("A", None, None)];
    let reactions = vec![reaction("A", "U1", "like")];
    let forest = build_comment_tree(&comments, &reactions, &vec![], &None).ok().unwrap();
    assert_eq!(count(&forest[0], "like"), Some(1));
    assert!(forest[0].user_reactions.is_empty());
}

#[test]
fn orphaned_reaction_is_ignored() {
    let comments = vec![comment("A", None, None)];
    let reactions = vec![reaction("GONE", "U1", "like")];
    let forest = build_comment_tree(&comments, &reactions, &vec![], &Some("U1".to_string())).ok().unwrap();
    assert!(forest[0].reactions.is_empty());
    assert!(forest[0].user_reactions.is_empty());
}

#[test]
fn reply_to_absent_comment_is_inconsistent() {
    let comments = vec![comment("A", None, None), comment("B", None, Some("Z"))];
    assert!(matches!(build_comment_tree(&comments, &vec![], &vec![], &None), Err(DbError::Inconsistent(_))));
}

#[test]
fn shared_id_is_inconsistent() {
    let comments = vec![comment("A", None, None), comment("A", None, None)];
    assert!(matches!(build_comment_tree(&comments, &vec![], &vec![], &None), Err(DbError::Inconsistent(_))));
}

#[test]
fn roots_and_replies_in_ascending_id_order() {
    let comments = vec![
        comment("COMMENT_3", None, None),
        comment("COMMENT_1", None, None),
        comment("COMMENT_5", None, Some("COMMENT_1")),
        comment("COMMENT_2", None, None),
        comment("COMMENT_4", None, Some("COMMENT_1")),
    ];
    let forest = build_comment_tree(&comments, &vec![], &vec![], &None).ok().unwrap();
    let roots: Vec<&str> = forest.iter().map(|n| n.id.as_str()).collect();
    assert_eq!(roots, vec!["COMMENT_1", "COMMENT_2", "COMMENT_3"]);
    let replies: Vec<&str> = forest[0].replies.iter().map(|n| n.id.as_str()).collect();
    assert_eq!(replies, vec!["COMMENT_4", "COMMENT_5"]);
}

#[test]
fn authors_are_found_or_left_out() {
    let comments = vec![comment("A", Some("U1"), None), comment("B", Some("U9"), None), comment("C", None, None)];
    let users = vec![user("U1")];
    let forest = build_comment_tree(&comments, &vec![], &users, &None).ok().unwrap();
    let a = forest[0].user.as_ref().unwrap();
    assert_eq!(a.id, "U1");
    assert_eq!(a.name, "name U1");
    assert_eq!(a.picture_url, "http://pic/U1");
    assert!(forest[1].user.is_none());
    assert!(forest[2].user.is_none());
    assert_eq!(forest[0].body, "text A");
}

#[test]
fn empty_listing() {
    assert!(build_comment_tree(&vec![], &vec![], &vec![], &None).ok().unwrap().is_empty());
}

#[test]
fn id_order() {
    assert!(id_less(&"COMMENT_1".to_string(), &"COMMENT_2".to_string()));
    assert!(id_less(&"COMMENT_1".to_string(), &"COMMENT_10".to_string()));
    assert!(!id_less(&"COMMENT_2".to_string(), &"COMMENT_10".to_string()));
    assert!(!id_less(&"A".to_string(), &"A".to_string()));
    assert!(id_less(&"".to_string(), &"A".to_string()));
    let order = sort_by_id(&vec![comment("b", None, None), comment("c", None, None), comment("a", None, None)]).ok().unwrap();
    assert_eq!(order, vec![2, 0, 1]);
}
