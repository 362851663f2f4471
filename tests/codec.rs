use commentable_rs::db::{attribute_value, AttributeValue, Attributes, DbError, Timestamp};
use commentable_rs::http::{missing_path_param, missing_request_param, require_params, Failure};

fn sample() -> Attributes {
    let mut a = Attributes::new();
    a.insert_string("primary_key", "ARTICLE_1".to_string());
    a.insert_string("id", "COMMENT_1".to_string());
    a.insert_string("created_at", "2020-01-01T00:00:00Z".to_string());
    a.insert(String::from("is_deleted"), AttributeValue::Bool(true));
    a
}

#[test]
fn string_field_is_read() {
    let a = sample();
    assert_eq!(a.string("id").ok(), Some("COMMENT_1".to_string()));
}

#[test]
fn missing_string_field_is_record_invalid() {
    let a = sample();
    match a.string("body") {
        Err(DbError::RecordInvalid(m)) => assert_eq!(m, "Missing field 'body'."),
        _ => panic!("expected RecordInvalid"),
    }
}

#[test]
fn boolean_is_no_string() {
    let a = sample();
    assert!(matches!(a.string("is_deleted"), Err(DbError::RecordInvalid(_))));
    assert_eq!(a.optional_string("is_deleted"), None);
    assert_eq!(a.optional_bool("is_deleted"), Some(true));
    assert_eq!(a.optional_bool("id"), None);
}

#[test]
fn optional_string_absent_is_none() {
    let a = sample();
    assert_eq!(a.optional_string("replies_to"), None);
    assert_eq!(a.optional_string("primary_key"), Some("ARTICLE_1".to_string()));
}

#[test]
fn later_insert_replaces() {
    let mut a = sample();
    a.insert(String::from("id"), attribute_value("COMMENT_2".to_string()));
    assert_eq!(a.string("id").ok(), Some("COMMENT_2".to_string()));
}

#[test]
fn remove_drops_field() {
    let mut a = sample();
    a.remove("id");
    assert!(a.get("id").is_none());
    assert!(a.get("primary_key").is_some());
}

#[test]
fn timestamp_parses_to_utc_instant() {
    let a = sample();
    assert_eq!(a.timestamp("created_at").ok(), Some(Timestamp { seconds: 1577836800, nanos: 0 }));
}

#[test]
fn timestamp_with_offset_and_fraction() {
    let mut a = Attributes::new();
    a.insert_string("created_at", "2020-01-01T02:00:00.5+02:00".to_string());
    assert_eq!(a.timestamp("created_at").ok(), Some(Timestamp { seconds: 1577836800, nanos: 500_000_000 }));
}

#[test]
fn malformed_timestamp_is_error_kind() {
    let mut a = Attributes::new();
    a.insert_string("created_at", "yesterday".to_string());
    match a.timestamp("created_at") {
        Err(DbError::Error(m)) => assert_eq!(m, "Error parsing timestamps in field 'created_at'"),
        _ => panic!("expected Error"),
    }
}

#[test]
fn missing_timestamp_is_record_invalid() {
    let a = Attributes::new();
    assert!(matches!(a.timestamp("created_at"), Err(DbError::RecordInvalid(_))));
}

#[test]
fn describe_names_kind() {
    assert_eq!(DbError::Error("x".to_string()).describe(), "DbError::Error -> x");
    assert_eq!(DbError::RecordInvalid("y".to_string()).describe(), "DbError::RecordInvalid -> y");
    assert_eq!(DbError::PartialFailure(3).describe(), "DbError::PartialFailure");
}

#[test]
fn missing_param_messages() {
    assert_eq!(missing_path_param("id"), "Invalid path parameters: id is required");
    assert_eq!(missing_request_param("body"), "Invalid request parameters: body is required");
}

#[test]
fn blank_parameter_is_bad_request() {
    let fields = vec![("auth_token", "abc"), ("body", " \t\n")];
    match require_params(&fields) {
        Err(f) => {
            assert_eq!(f.status_code(), 400);
            assert_eq!(f.message(), "Invalid request parameters: body is required");
        }
        Ok(()) => panic!("expected a refusal"),
    }
    let ok = vec![("auth_token", "abc"), ("body", " hi ")];
    assert!(require_params(&ok).is_ok());
}

#[test]
fn failure_statuses() {
    assert_eq!(Failure::Unauthorized(String::new()).status_code(), 401);
    assert_eq!(Failure::Forbidden(String::new()).status_code(), 403);
    assert_eq!(Failure::NotFound(String::new()).status_code(), 404);
    assert_eq!(Failure::Conflict(String::new()).status_code(), 409);
    assert_eq!(Failure::Internal(String::new()).status_code(), 500);
}
