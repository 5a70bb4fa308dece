use project_bot::integration::notion::api::{
    authorization_header, data_source_id_from_reply, data_source_query_url, database_reply_step,
    database_url, extract_data_source_id, is_ok_status, member_query_report,
    project_query_report, DatabaseStep, NotionReplyError,
};
use project_bot::integration::notion::json::JsonValue;

fn obj(entries: Vec<(&str, JsonValue)>) -> JsonValue {
    JsonValue::Object(entries.into_iter().map(|(k, v)| (k.to_string(), v)).collect())
}

fn text(s: &str) -> JsonValue {
    JsonValue::String(s.to_string())
}

#[test]
fn notion_addresses() {
    assert_eq!(database_url("abc123"), "https://api.notion.com/v1/databases/abc123");
    assert_eq!(
        data_source_query_url("ds-9"),
        "https://api.notion.com/v1/data_sources/ds-9/query"
    );
    assert_eq!(authorization_header("SECRET-REDACTED"), "Bearer SECRET-REDACTED");
}

#[test]
fn only_ok_status_is_accepted() {
    assert!(is_ok_status(200));
    assert!(!is_ok_status(201));
    assert!(!is_ok_status(404));
}

#[test]
fn data_source_id_is_read() {
    let db = obj(vec![
        ("object", text("database")),
        (
            "data_sources",
            JsonValue::Array(vec![
                obj(vec![("id", text("first")), ("name", text("Tasks"))]),
                obj(vec![("id", text("second"))]),
            ]),
        ),
    ]);
    assert_eq!(extract_data_source_id(&db), Some("first".to_string()));
}

#[test]
fn data_source_id_missing() {
    assert_eq!(extract_data_source_id(&obj(vec![])), None);
    assert_eq!(
        extract_data_source_id(&obj(vec![("data_sources", JsonValue::Array(vec![]))])),
        None
    );
    let number_id = obj(vec![(
        "data_sources",
        JsonValue::Array(vec![obj(vec![("id", JsonValue::Number(serde_json::Number::from(5u64)))])]),
    )]);
    assert_eq!(extract_data_source_id(&number_id), None);
    let not_array = obj(vec![("data_sources", obj(vec![("id", text("x"))]))]);
    assert_eq!(extract_data_source_id(&not_array), None);
    assert_eq!(extract_data_source_id(&JsonValue::Null), None);
}

#[test]
fn json_lookups() {
    let v = obj(vec![("a", JsonValue::Bool(true)), ("a", JsonValue::Null)]);
    assert!(matches!(v.get("a"), Some(JsonValue::Bool(true))));
    assert!(v.get("b").is_none());
    let arr = JsonValue::Array(vec![text("x")]);
    assert_eq!(arr.at(0).and_then(|x| x.as_str()).map(|s| s.as_str()), Some("x"));
    assert!(arr.at(1).is_none());
    assert!(arr.get("a").is_none());
    assert!(v.at(0).is_none());
}

#[test]
fn data_source_id_from_reply_text() {
    let body = r#"{"object":"database","data_sources":[{"id":"ds-1","name":"Tasks"},{"id":"ds-2"}]}"#;
    assert_eq!(data_source_id_from_reply(body.as_bytes()), Ok("ds-1".to_string()));
    assert_eq!(
        data_source_id_from_reply(br#"{"data_sources":[]}"#),
        Err(NotionReplyError::MissingDataSourceId)
    );
    assert_eq!(
        data_source_id_from_reply(br#"{"data_sources":[{"id":7}]}"#),
        Err(NotionReplyError::MissingDataSourceId)
    );
    assert_eq!(data_source_id_from_reply(b"not json"), Err(NotionReplyError::InvalidJson));
    assert_eq!(data_source_id_from_reply(b""), Err(NotionReplyError::InvalidJson));
}

#[test]
fn member_report_is_compact_json() {
    let body = "{ \"a\" : [ true , null , 1.5 ],\n \"b\": {\"c\": \"x\"} }";
    assert_eq!(
        member_query_report(body),
        Some("Notion API 응답: {\"a\":[true,null,1.5],\"b\":{\"c\":\"x\"}}".to_string())
    );
    assert_eq!(member_query_report("[1,]"), None);
}

#[test]
fn project_report_is_indented_json() {
    let body = r#"{"results":[{"id":"p1"}],"has_more":false}"#;
    let report = project_query_report(body.as_bytes()).unwrap();
    let pretty = serde_json::to_string_pretty(&serde_json::from_str::<serde_json::Value>(body).unwrap()).unwrap();
    assert_eq!(report, format!("Response:\n{pretty}"));
    assert_eq!(project_query_report(b"{\"a\": 1}"), Ok("Response:\n{\n  \"a\": 1\n}".to_string()));
    assert_eq!(project_query_report(b"{"), Err(NotionReplyError::InvalidJson));
}

#[test]
fn reply_bytes_must_be_utf8_json() {
    assert_eq!(
        data_source_id_from_reply(b"{\"data_sources\":[{\"id\":\"\xff\"}]}"),
        Err(NotionReplyError::InvalidJson)
    );
}

#[test]
fn database_step_sends_query_only_after_good_reply() {
    let body = br#"{"data_sources":[{"id":"ds-1"}]}"#;
    assert!(matches!(
        database_reply_step(404, None),
        DatabaseStep::Fail(NotionReplyError::BadStatus(404))
    ));
    assert!(matches!(
        database_reply_step(500, Some(body)),
        DatabaseStep::Fail(NotionReplyError::BadStatus(500))
    ));
    assert!(matches!(database_reply_step(200, None), DatabaseStep::ReadBody));
    match database_reply_step(200, Some(body)) {
        DatabaseStep::Query(url) => {
            assert_eq!(url, "https://api.notion.com/v1/data_sources/ds-1/query")
        }
        _ => panic!("expected a query"),
    }
    assert!(matches!(
        database_reply_step(200, Some(b"{}")),
        DatabaseStep::Fail(NotionReplyError::MissingDataSourceId)
    ));
    assert!(matches!(
        database_reply_step(200, Some(b"<html>")),
        DatabaseStep::Fail(NotionReplyError::InvalidJson)
    ));
}
