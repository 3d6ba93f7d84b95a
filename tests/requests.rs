use ignite_client::request::{
    cache_command_url, count_placeholders, ddl_url, dml_url, get_url, put_url, sql_query_url,
    CacheCommand, RequestError, SqlArg,
};
use ignite_client::text::{append_decimal, append_signed_decimal, is_valid_identifier, parse_u32};

const BASE: &str = "http://localhost:8080/ignite";

#[test]
fn identifiers_are_letters_digits_and_underscores() {
    assert!(is_valid_identifier("PersonCache"));
    assert!(is_valid_identifier("my_rust_cache2"));
    assert!(!is_valid_identifier(""));
    assert!(!is_valid_identifier("Person; DROP TABLE x"));
    assert!(!is_valid_identifier("a-b"));
    assert!(!is_valid_identifier("caché"));
}

#[test]
fn decimal_numerals() {
    let mut s = String::new();
    append_decimal(&mut s, 0);
    assert_eq!(s, "0");
    let mut s = String::from("n=");
    append_decimal(&mut s, 18446744073709551615);
    assert_eq!(s, "n=18446744073709551615");
    let mut s = String::new();
    append_signed_decimal(&mut s, -9223372036854775808);
    assert_eq!(s, "-9223372036854775808");
    let mut s = String::new();
    append_signed_decimal(&mut s, 30);
    assert_eq!(s, "30");
}

#[test]
fn u32_numerals() {
    assert_eq!(parse_u32("0"), Some(0));
    assert_eq!(parse_u32("4294967295"), Some(4294967295));
    assert_eq!(parse_u32("4294967296"), None);
    assert_eq!(parse_u32("99999999999999999999"), None);
    assert_eq!(parse_u32(""), None);
    assert_eq!(parse_u32("-1"), None);
    assert_eq!(parse_u32("1.0"), None);
}

#[test]
fn placeholders_are_counted() {
    assert_eq!(count_placeholders("SELECT * FROM Person WHERE age > ?"), 1);
    assert_eq!(count_placeholders("INSERT INTO Person (id, name, age) VALUES (?, ?, ?)"), 3);
    assert_eq!(count_placeholders("SELECT 1"), 0);
    assert_eq!(count_placeholders("SELECT * FROM Person WHERE name = 'who?'"), 0);
    assert_eq!(count_placeholders("SELECT 'it''s?' , ? FROM t WHERE a = '?' AND b = ?"), 2);
}

#[test]
fn create_table_request() {
    let url = ddl_url(
        BASE,
        "PersonCache",
        "CREATE TABLE Person (id INT PRIMARY KEY, name VARCHAR(50), age INT)",
    )
    .unwrap();
    assert_eq!(
        url,
        "http://localhost:8080/ignite?cmd=qryfldexe&cacheName=PersonCache&qry=CREATE%20TABLE%20Person%20%28id%20INT%20PRIMARY%20KEY%2C%20name%20VARCHAR%2850%29%2C%20age%20INT%29&pageSize=10"
    );
}

#[test]
fn insert_request_binds_arguments_in_order() {
    let args = vec![SqlArg::Int(1), SqlArg::Text("John Doe".to_string()), SqlArg::Int(30)];
    let url = dml_url(BASE, "PersonCache", "INSERT INTO Person (id, name, age) VALUES (?, ?, ?)", &args)
        .unwrap();
    assert_eq!(
        url,
        "http://localhost:8080/ignite?cmd=qryfldexe&cacheName=PersonCache&qry=INSERT%20INTO%20Person%20%28id%2C%20name%2C%20age%29%20VALUES%20%28%3F%2C%20%3F%2C%20%3F%29&pageSize=10&arg1=1&arg2=John%20Doe&arg3=30"
    );
}

#[test]
fn select_request_with_page_size() {
    let args = vec![SqlArg::Int(25)];
    let url = sql_query_url(BASE, "PersonCache", None, "SELECT * FROM Person WHERE age > ?", &args, 10).unwrap();
    assert_eq!(
        url,
        "http://localhost:8080/ignite?cmd=qryfldexe&cacheName=PersonCache&qry=SELECT%20%2A%20FROM%20Person%20WHERE%20age%20%3E%20%3F&pageSize=10&arg1=25"
    );
    let url = sql_query_url(BASE, "PersonCache", Some("PUBLIC"), "SELECT * FROM Person WHERE age > ?", &args, 10).unwrap();
    assert_eq!(
        url,
        "http://localhost:8080/ignite?cmd=qryfldexe&cacheName=PersonCache&qry=SELECT%20%2A%20FROM%20Person%20WHERE%20age%20%3E%20%3F&pageSize=10&schemaName=PUBLIC&arg1=25"
    );
}

#[test]
fn negative_and_unicode_arguments_are_encoded() {
    let args = vec![SqlArg::Int(-7), SqlArg::Text("é&=".to_string())];
    let url = sql_query_url(BASE, "c", None, "?~?", &args, 1).unwrap();
    assert_eq!(url, "http://localhost:8080/ignite?cmd=qryfldexe&cacheName=c&qry=%3F~%3F&pageSize=1&arg1=-7&arg2=%C3%A9%26%3D");
}

#[test]
fn argument_count_mismatch_is_a_request_error() {
    let args = vec![SqlArg::Int(1)];
    let r = dml_url(BASE, "PersonCache", "INSERT INTO Person (id, name) VALUES (?, ?)", &args);
    assert_eq!(r, Err(RequestError::PlaceholderMismatch { placeholders: 2, args: 1 }));
    let r = ddl_url(BASE, "PersonCache", "SELECT ?");
    assert_eq!(r, Err(RequestError::PlaceholderMismatch { placeholders: 1, args: 0 }));
}

#[test]
fn bad_cache_name_is_refused() {
    let r = ddl_url(BASE, "Person Cache", "SELECT 1");
    assert_eq!(r, Err(RequestError::BadIdentifier));
    let args: Vec<SqlArg> = Vec::new();
    let r = sql_query_url(BASE, "PersonCache", Some("PUBLIC; x"), "SELECT 1", &args, 10);
    assert_eq!(r, Err(RequestError::BadIdentifier));
    assert_eq!(get_url(BASE, "", "k"), Err(RequestError::BadIdentifier));
    assert_eq!(put_url(BASE, "a&b", "k", "v"), Err(RequestError::BadIdentifier));
    assert_eq!(cache_command_url(BASE, CacheCommand::Destroy, "x/y"), Err(RequestError::BadIdentifier));
}

#[test]
fn quoted_question_mark_needs_no_argument() {
    let url = ddl_url(BASE, "PersonCache", "SELECT * FROM Person WHERE name = 'who?'").unwrap();
    assert_eq!(
        url,
        "http://localhost:8080/ignite?cmd=qryfldexe&cacheName=PersonCache&qry=SELECT%20%2A%20FROM%20Person%20WHERE%20name%20%3D%20%27who%3F%27&pageSize=10"
    );
}

#[test]
fn zero_page_size_is_refused() {
    let args: Vec<SqlArg> = Vec::new();
    let r = sql_query_url(BASE, "PersonCache", None, "SELECT * FROM Person", &args, 0);
    assert_eq!(r, Err(RequestError::ZeroPageSize));
}

#[test]
fn cache_requests() {
    assert_eq!(
        cache_command_url(BASE, CacheCommand::GetOrCreate, "my_rust_cache").unwrap(),
        "http://localhost:8080/ignite?cmd=getorcreate&cacheName=my_rust_cache"
    );
    assert_eq!(
        cache_command_url(BASE, CacheCommand::Destroy, "my_rust_cache").unwrap(),
        "http://localhost:8080/ignite?cmd=destcache&cacheName=my_rust_cache"
    );
    assert_eq!(
        put_url(BASE, "my_rust_cache", "1", "Hello, Ignite!").unwrap(),
        "http://localhost:8080/ignite?cmd=put&cacheName=my_rust_cache&key=1&val=Hello%2C%20Ignite%21"
    );
    assert_eq!(
        get_url(BASE, "my_rust_cache", "99").unwrap(),
        "http://localhost:8080/ignite?cmd=get&cacheName=my_rust_cache&key=99"
    );
}
