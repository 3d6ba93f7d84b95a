use ignite_client::decode::{
    decode_ack_answer, decode_get_answer, decode_sql, decode_sql_answer, ClientError, DecodeFailure,
};
use ignite_client::json::{parse_json, Json};

fn decoding(r: Result<impl std::fmt::Debug, ClientError>) -> DecodeFailure {
    match r {
        Err(ClientError::Decoding { failure }) => failure,
        other => panic!("expected a decoding failure, got {:?}", other),
    }
}

#[test]
fn parsed_documents_keep_number_text_and_sort_members() {
    let v = parse_json(r#"{"b": [1, -2.5, true, null], "a": "y", "a": "x"}"#).unwrap();
    match v {
        Json::Object(m) => {
            assert_eq!(m.len(), 2);
            assert_eq!(m[0].0, "a");
            assert!(matches!(&m[0].1, Json::Text(s) if s == "x"));
            assert_eq!(m[1].0, "b");
            match &m[1].1 {
                Json::Array(a) => {
                    assert!(matches!(&a[0], Json::Number(n) if n == "1"));
                    assert!(matches!(&a[1], Json::Number(n) if n == "-2.5"));
                    assert!(matches!(&a[2], Json::Bool(true)));
                    assert!(matches!(&a[3], Json::Null));
                }
                other => panic!("{:?}", other),
            }
        }
        other => panic!("{:?}", other),
    }
    assert!(parse_json("{").is_none());
    assert!(parse_json("").is_none());
}

#[test]
fn select_answer_yields_one_row() {
    let body = r#"{"successStatus":0,"error":null,"response":{"fieldsMetadata":[{"fieldName":"ID","fieldTypeName":"java.lang.Integer","schemaName":"PUBLIC"},{"fieldName":"NAME","fieldTypeName":"java.lang.String"},{"fieldName":"AGE","fieldTypeName":"java.lang.Integer"}],"items":[[1,"John Doe",30]],"last":true,"queryId":3}}"#;
    let res = decode_sql_answer(200, body, 10).unwrap();
    assert_eq!(res.fields.len(), 3);
    assert_eq!(res.fields[0].field_name, "ID");
    assert_eq!(res.fields[0].field_type_name, "java.lang.Integer");
    assert_eq!(res.fields[1].field_name, "NAME");
    assert_eq!(res.fields[2].field_name, "AGE");
    assert_eq!(res.rows.len(), 1);
    let row = &res.rows[0];
    assert_eq!(row.len(), 3);
    assert!(matches!(&row[0], Json::Number(n) if n == "1"));
    assert!(matches!(&row[1], Json::Text(s) if s == "John Doe"));
    assert!(matches!(&row[2], Json::Number(n) if n == "30"));
}

#[test]
fn ddl_answer_without_rows_succeeds() {
    let body = r#"{"successStatus":0,"error":null,"response":{"fieldsMetadata":[],"items":null}}"#;
    let res = decode_sql_answer(200, body, 10).unwrap();
    assert!(res.fields.is_empty());
    assert!(res.rows.is_empty());
    let res = decode_sql_answer(200, r#"{"successStatus":0,"response":{}}"#, 10).unwrap();
    assert!(res.rows.is_empty());
}

#[test]
fn success_without_response_is_a_decoding_error() {
    assert_eq!(decoding(decode_sql_answer(200, r#"{"successStatus":0,"error":null}"#, 10)), DecodeFailure::MissingResponse);
    assert_eq!(decoding(decode_sql_answer(200, r#"{"successStatus":0,"response":null}"#, 10)), DecodeFailure::MissingResponse);
    assert_eq!(decoding(decode_get_answer(200, r#"{"successStatus":0}"#)), DecodeFailure::MissingResponse);
    assert_eq!(decoding(decode_get_answer(200, r#"{}"#)), DecodeFailure::MissingResponse);
}

#[test]
fn malformed_bodies_name_what_is_wrong() {
    assert_eq!(decoding(decode_sql_answer(200, "not json", 10)), DecodeFailure::NotJson);
    assert_eq!(decoding(decode_sql_answer(200, "[1]", 10)), DecodeFailure::NotObject);
    assert_eq!(decoding(decode_sql_answer(200, r#"{"response":{}}"#, 10)), DecodeFailure::MissingStatus);
    assert_eq!(decoding(decode_sql_answer(200, r#"{"successStatus":"0","response":{}}"#, 10)), DecodeFailure::BadStatus);
    assert_eq!(decoding(decode_sql_answer(200, r#"{"successStatus":-1,"response":{}}"#, 10)), DecodeFailure::BadStatus);
    assert_eq!(decoding(decode_sql_answer(200, r#"{"successStatus":0,"error":5,"response":{}}"#, 10)), DecodeFailure::BadError);
    assert_eq!(decoding(decode_sql_answer(200, r#"{"successStatus":0,"response":5}"#, 10)), DecodeFailure::BadResponse);
    assert_eq!(decoding(decode_sql_answer(200, r#"{"successStatus":0,"response":{"fieldsMetadata":[{"fieldName":"ID"}]}}"#, 10)), DecodeFailure::BadFields);
    assert_eq!(decoding(decode_sql_answer(200, r#"{"successStatus":0,"response":{"fieldsMetadata":3}}"#, 10)), DecodeFailure::BadFields);
    assert_eq!(decoding(decode_sql_answer(200, r#"{"successStatus":0,"response":{"items":[1]}}"#, 10)), DecodeFailure::BadItems);
}

#[test]
fn failures_reported_by_the_cluster() {
    match decode_sql_answer(200, r#"{"successStatus":1,"error":"Table already exists: PERSON","response":null}"#, 10) {
        Err(ClientError::Application { status, message }) => {
            assert_eq!(status, 1);
            assert_eq!(message.as_deref(), Some("Table already exists: PERSON"));
        }
        other => panic!("{:?}", other),
    }
    match decode_ack_answer(200, r#"{"successStatus":2,"error":null,"response":null}"#) {
        Err(ClientError::Application { status, message }) => {
            assert_eq!(status, 2);
            assert!(message.is_none());
        }
        other => panic!("{:?}", other),
    }
    match decode_get_answer(200, r#"{"successStatus":0,"error":"boom","response":"v"}"#) {
        Err(ClientError::Application { status: 0, message: Some(m) }) => assert_eq!(m, "boom"),
        other => panic!("{:?}", other),
    }
}

#[test]
fn transport_status_comes_first() {
    assert!(matches!(decode_sql_answer(500, "{}", 10), Err(ClientError::Transport { http_status: 500 })));
    assert!(matches!(decode_get_answer(404, "not json"), Err(ClientError::Transport { http_status: 404 })));
    assert!(matches!(decode_ack_answer(199, ""), Err(ClientError::Transport { http_status: 199 })));
    assert!(decode_ack_answer(299, r#"{"successStatus":0,"response":true}"#).is_ok());
}

#[test]
fn absent_key_is_not_an_error() {
    let r = decode_get_answer(200, r#"{"successStatus":0,"error":null,"response":null}"#);
    assert!(matches!(r, Ok(None)));
    let r = decode_get_answer(200, r#"{"successStatus":0,"error":null,"response":"Hello, Ignite!"}"#);
    assert!(matches!(r, Ok(Some(Json::Text(s))) if s == "Hello, Ignite!"));
}

#[test]
fn sql_decoding_of_a_built_document() {
    let v = Json::Object(vec![
        ("successStatus".to_string(), Json::Number("0".to_string())),
        (
            "response".to_string(),
            Json::Object(vec![
                (
                    "fieldsMetadata".to_string(),
                    Json::Array(vec![Json::Object(vec![
                        ("fieldName".to_string(), Json::Text("OK".to_string())),
                        ("fieldTypeName".to_string(), Json::Text("java.lang.Boolean".to_string())),
                    ])]),
                ),
                ("items".to_string(), Json::Array(vec![Json::Array(vec![Json::Bool(false)])])),
            ]),
        ),
    ]);
    let res = decode_sql(v, 10).unwrap();
    assert_eq!(res.fields[0].field_name, "OK");
    assert!(matches!(res.rows[0][0], Json::Bool(false)));
}

#[test]
fn get_answer_without_status_reads_the_value() {
    let r = decode_get_answer(200, r#"{"response":"Hello, Ignite!"}"#);
    assert!(matches!(r, Ok(Some(Json::Text(s))) if s == "Hello, Ignite!"));
    assert!(matches!(decode_get_answer(200, r#"{"response":null}"#), Ok(None)));
    assert!(matches!(
        decode_get_answer(200, r#"{"successStatus":1,"response":null}"#),
        Err(ClientError::Application { status: 1, message: None })
    ));
}

#[test]
fn rows_must_match_the_fields() {
    let short = r#"{"successStatus":0,"response":{"fieldsMetadata":[{"fieldName":"ID","fieldTypeName":"java.lang.Integer"},{"fieldName":"NAME","fieldTypeName":"java.lang.String"}],"items":[[1,"a"],[2]]}}"#;
    assert_eq!(decoding(decode_sql_answer(200, short, 10)), DecodeFailure::BadItems);
    let no_fields = r#"{"successStatus":0,"response":{"items":[[1]]}}"#;
    assert_eq!(decoding(decode_sql_answer(200, no_fields, 10)), DecodeFailure::BadItems);
}

#[test]
fn rows_beyond_the_page_size_are_refused() {
    let body = r#"{"successStatus":0,"response":{"fieldsMetadata":[{"fieldName":"ID","fieldTypeName":"java.lang.Integer"}],"items":[[1],[2],[3]]}}"#;
    assert_eq!(decoding(decode_sql_answer(200, body, 2)), DecodeFailure::TooManyRows);
    assert_eq!(decode_sql_answer(200, body, 3).unwrap().rows.len(), 3);
}
