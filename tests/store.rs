use commentable_rs::db::{Attributes, DbError};
use commentable_rs::store::{batch_delete, query, BatchDelete, KeyCondition, MemoryTable, Pagination};
use commentable_rs::user::User;

fn item(pk: &str, id: &str) -> Attributes {
    let mut a = Attributes::new();
    a.insert_string("primary_key", pk.to_string());
    a.insert_string("id", id.to_string());
    a
}

fn fill(table: &mut MemoryTable, pk: &str, prefix: &str, n: usize) {
    for i in 0..n {
        assert!(table.put_item(item(pk, &format!("{}{:03}", prefix, i))).is_ok());
    }
}

fn prefix_query(pk: &str, prefix: &str) -> KeyCondition {
    KeyCondition::IdPrefix { primary_key: pk.to_string(), prefix: prefix.to_string() }
}

#[test]
fn get_put_delete() {
    let mut t = MemoryTable::new(10, 0);
    assert!(t.put_item(item("A", "X")).is_ok());
    assert!(t.get_item(&"A".to_string(), &"X".to_string()).is_some());
    assert!(t.get_item(&"A".to_string(), &"Y".to_string()).is_none());
    t.delete_item(&"A".to_string(), &"X".to_string());
    assert!(t.get_item(&"A".to_string(), &"X".to_string()).is_none());
    // deleting an absent item is no error
    t.delete_item(&"A".to_string(), &"X".to_string());
}

#[test]
fn put_without_key_is_refused() {
    let mut t = MemoryTable::new(10, 0);
    let mut a = Attributes::new();
    a.insert_string("id", "X".to_string());
    assert!(matches!(t.put_item(a), Err(DbError::RecordInvalid(_))));
}

#[test]
fn put_new_item_conflicts_on_taken_key() {
    let mut t = MemoryTable::new(10, 0);
    assert!(t.put_new_item(item("A", "X")).is_ok());
    assert!(matches!(t.put_new_item(item("A", "X")), Err(DbError::Conflict(_))));
}

#[test]
fn pagination_returns_every_item_once() {
    for k in [1usize, 2, 3, 7, 25, 100] {
        let mut t = MemoryTable::new(k, 0);
        fill(&mut t, "A", "COMMENT_", 23);
        fill(&mut t, "A", "REACTION_", 5);
        fill(&mut t, "B", "COMMENT_", 4);
        let r = query(&t, &prefix_query("A", "COMMENT_"));
        assert_eq!(r.len(), 23);
        let ids: Vec<String> = r.iter().map(|a| a.string("id").ok().unwrap()).collect();
        for i in 0..23 {
            assert_eq!(ids[i], format!("COMMENT_{:03}", i));
        }
    }
}

#[test]
fn single_page_is_bounded() {
    let mut t = MemoryTable::new(4, 0);
    fill(&mut t, "A", "COMMENT_", 10);
    let (page, next) = t.query_page(&prefix_query("A", "COMMENT_"), 0);
    assert_eq!(page.len(), 4);
    assert_eq!(next, Some(4));
}

#[test]
fn index_query_selects_attribute() {
    let mut t = MemoryTable::new(2, 0);
    for (id, parent) in [("C1", None), ("C2", Some("C1")), ("C3", Some("C1")), ("C4", Some("C2"))] {
        let mut a = item("A", id);
        if let Some(p) = parent {
            a.insert_string("replies_to", p.to_string());
        }
        assert!(t.put_item(a).is_ok());
    }
    let cond = KeyCondition::Index {
        primary_key: "A".to_string(),
        attribute: "replies_to".to_string(),
        value: "C1".to_string(),
    };
    assert_eq!(query(&t, &cond).len(), 2);
}

#[test]
fn pagination_record_page_accumulates() {
    let mut p = Pagination::new();
    assert_eq!(p.record_page(vec![item("A", "1")], Some(7u32)), Some(7));
    assert!(!p.finished);
    assert_eq!(p.record_page(vec![item("A", "2"), item("A", "3")], None::<u32>), None);
    assert!(p.finished);
    assert_eq!(p.results.len(), 3);
}

fn keys(n: usize) -> Vec<(String, String)> {
    (0..n).map(|i| ("A".to_string(), format!("R{:03}", i))).collect()
}

#[test]
fn batch_delete_removes_all_when_store_processes_all() {
    let mut t = MemoryTable::new(10, 0);
    for (pk, id) in keys(60) {
        assert!(t.put_item(item(&pk, &id)).is_ok());
    }
    assert!(t.put_item(item("A", "KEEP")).is_ok());
    assert!(batch_delete(&mut t, keys(60)).is_ok());
    for (pk, id) in keys(60) {
        assert!(t.get_item(&pk, &id).is_none());
    }
    assert!(t.get_item(&"A".to_string(), &"KEEP".to_string()).is_some());
}

#[test]
fn batch_delete_with_some_unprocessed_retries() {
    // 10% unprocessed per call: 30 keys in 25 + 5, then 2 resubmitted; within 4 writes
    let mut t = MemoryTable::new(10, 10);
    for (pk, id) in keys(30) {
        assert!(t.put_item(item(&pk, &id)).is_ok());
    }
    assert!(batch_delete(&mut t, keys(30)).is_ok());
    for (pk, id) in keys(30) {
        assert!(t.get_item(&pk, &id).is_none());
    }
}

#[test]
fn batch_delete_reports_partial_failure() {
    let mut t = MemoryTable::new(10, 100);
    for (pk, id) in keys(30) {
        assert!(t.put_item(item(&pk, &id)).is_ok());
    }
    match batch_delete(&mut t, keys(30)) {
        Err(DbError::PartialFailure(n)) => assert_eq!(n, 30),
        _ => panic!("expected a partial failure"),
    }
}

#[test]
fn batch_delete_half_unprocessed_exceeds_ceiling() {
    let mut t = MemoryTable::new(10, 50);
    for (pk, id) in keys(25) {
        assert!(t.put_item(item(&pk, &id)).is_ok());
    }
    match batch_delete(&mut t, keys(25)) {
        Err(DbError::PartialFailure(n)) => assert!(n > 0),
        _ => panic!("expected a partial failure"),
    }
}

#[test]
fn batch_delete_state_machine_chunks_and_ceiling() {
    let mut job = BatchDelete::new(keys(60));
    let mut sizes = vec![];
    while let Some(chunk) = job.next_request() {
        sizes.push(chunk.len());
        job.record_unprocessed(vec![]);
    }
    assert_eq!(sizes, vec![25, 25, 10]);
    assert!(job.outcome().is_ok());

    let mut stuck = BatchDelete::new(keys(26));
    let mut writes = 0;
    while let Some(chunk) = stuck.next_request() {
        writes += 1;
        stuck.record_unprocessed(chunk);
    }
    // two groups of keys, plus two resubmissions
    assert_eq!(writes, 4);
    assert!(matches!(stuck.outcome(), Err(DbError::PartialFailure(26))));
}

#[test]
fn batch_delete_of_nothing_is_ok() {
    let mut t = MemoryTable::new(10, 100);
    assert!(batch_delete(&mut t, vec![]).is_ok());
}

#[test]
fn batch_get_chunks_of_one_hundred() {
    let ids: Vec<String> = (0..250).map(|i| format!("USER_{}", i)).collect();
    let chunks = User::batch_get_chunks(&ids);
    let sizes: Vec<usize> = chunks.iter().map(|c| c.len()).collect();
    assert_eq!(sizes, vec![100, 100, 50]);
    assert_eq!(chunks.concat(), ids);
    assert!(User::batch_get_chunks(&vec![]).is_empty());
}
