use bearmark::api::{Auth, Config, Error};
use bearmark::errors::{BearQLError, CommonError, DatabaseError};
use bearmark::random::rand_str;
use bearmark::web::{push_decimal, ApiClient, ApiError, BookmarkSearchParams};

#[test]
fn test_rand_str() {
    let s1 = rand_str(10);
    assert_eq!(s1.len(), 10);
    let s2 = rand_str(10);
    assert_eq!(s2.len(), 10);
    assert_ne!(s1, s2)
}

#[test]
fn rand_test_rand_str() {
    let s1 = rand_str(10);
    assert_eq!(s1.len(), 10);
    let s2 = rand_str(10);
    assert_eq!(s2.len(), 10);
    assert_ne!(s1, s2)
}

#[test]
fn rand_str_is_alphanumeric() {
    assert_eq!(rand_str(0), "");
    let s = rand_str(200);
    assert_eq!(s.chars().count(), 200);
    assert!(s.chars().all(|c| c.is_ascii_alphanumeric()));
}

#[test]
fn query_string_of_search_params() {
    assert_eq!(BookmarkSearchParams::new().to_query_string(), "");
    assert_eq!(BookmarkSearchParams::default().to_query_string(), "");
    assert_eq!(
        BookmarkSearchParams::new()
            .with_query("rust lang".to_string())
            .to_query_string(),
        "?q=rust%20lang"
    );
    assert_eq!(
        BookmarkSearchParams::new()
            .with_limit(10)
            .with_before(-7)
            .with_cwd("/a/b".to_string())
            .with_query("#t | x~y_z-1.2".to_string())
            .to_query_string(),
        "?q=%23t%20%7C%20x~y_z-1.2&cwd=%2Fa%2Fb&before=-7&limit=10"
    );
    assert_eq!(
        BookmarkSearchParams::new()
            .with_query("\u{e9}".to_string())
            .to_query_string(),
        "?q=%C3%A9"
    );
    assert_eq!(
        BookmarkSearchParams::new().with_before(0).to_query_string(),
        "?before=0"
    );
    assert_eq!(
        BookmarkSearchParams::new()
            .with_cwd("".to_string())
            .with_limit(i64::MIN)
            .to_query_string(),
        "?cwd=&limit=-9223372036854775808"
    );
}

#[test]
fn search_params_builders_set_one_field() {
    let p = BookmarkSearchParams::new();
    assert_eq!(
        p,
        BookmarkSearchParams {
            q: None,
            cwd: None,
            before: None,
            limit: None
        }
    );
    let p = p.with_query("q".to_string());
    assert_eq!(p.q.as_deref(), Some("q"));
    let p = p.with_cwd("/c".to_string());
    assert_eq!(p.cwd.as_deref(), Some("/c"));
    let p = p.with_before(5);
    assert_eq!(p.before, Some(5));
    let p = p.with_limit(6);
    assert_eq!(
        p,
        BookmarkSearchParams {
            q: Some("q".to_string()),
            cwd: Some("/c".to_string()),
            before: Some(5),
            limit: Some(6)
        }
    );
}

#[test]
fn decimal_forms() {
    for n in [0, 7, 10, 99, 100, -1, -10, 1234567890123, i64::MAX, i64::MIN] {
        let mut out = String::from("n=");
        push_decimal(&mut out, n);
        assert_eq!(out, format!("n={}", n));
    }
}

#[test]
fn api_client_addresses() {
    let client = ApiClient::from_location(None);
    assert_eq!(client.url("/bookmarks/"), "http://localhost:8000/api/bookmarks/");
    assert_eq!(client.api_key(), None);

    let client = ApiClient::from_location(Some("https://bm.example/"));
    assert_eq!(client.url(""), "https://bm.example/api");
    let client = ApiClient::from_location(Some("https://bm.example/ui//"));
    assert_eq!(client.url("/x"), "https://bm.example/ui/api/x");

    let client = client.with_api_key("k1".to_string());
    assert_eq!(client.api_key(), Some(&"k1".to_string()));
    assert_eq!(client.url("/x"), "https://bm.example/ui/api/x");
    let mut client = client;
    client.set_api_key("k2".to_string());
    assert_eq!(client.api_key(), Some(&"k2".to_string()));
}

#[test]
fn api_errors() {
    let e = ApiError::request_failed("timeout");
    assert_eq!(e.message, "Request failed: timeout");
    assert_eq!(e.code, None);
    assert_eq!(e.to_string(), "API Error: Request failed: timeout");
    assert_eq!(
        ApiError::serialize_failed("x").message,
        "Failed to serialize request: x"
    );
    assert_eq!(
        ApiError::parse_failed("y").message,
        "Failed to parse response: y"
    );
    assert_eq!(
        ApiError::from_status(404, Some("gone".to_string())),
        ApiError {
            message: "gone".to_string(),
            code: Some(404)
        }
    );
    assert_eq!(
        ApiError::from_status(500, None),
        ApiError {
            message: "Unknown error".to_string(),
            code: Some(500)
        }
    );
}

#[test]
fn test_without_config() {
    let response = Auth::from_request(None, None);
    assert_eq!(
        response,
        Err((500, Error::InternalServer("Missing Config".to_string())))
    );
}

#[test]
fn test_disable_auth() {
    let config = Config {
        api_key: None,
        ..Default::default()
    };
    assert_eq!(Auth::from_request(Some(&config), None), Ok(Auth));
    assert_eq!(Auth::from_request(Some(&config), Some("any")), Ok(Auth));
}

#[test]
fn test_enable_auth() {
    let key = rand_str(32);
    let config = Config {
        api_key: Some(key.clone()),
        ..Default::default()
    };

    let response = Auth::from_request(Some(&config), None);
    assert_eq!(
        response,
        Err((401, Error::MissingAPIKey("Missing API Key".to_string())))
    );

    let response = Auth::from_request(Some(&config), Some(&key));
    assert_eq!(response, Ok(Auth));

    let response = Auth::from_request(Some(&config), Some(&rand_str(32)));
    assert_eq!(
        response,
        Err((403, Error::InvalidAPIKey("Invalid API Key".to_string())))
    );
}

#[test]
fn failures_are_answered_as_bad_requests() {
    assert_eq!(
        Error::from_database(DatabaseError::DuplicationError {
            table: "folders".to_string()
        }),
        Error::BadRequest(
            "duplicate key value violates unique constraint of \"folders\"".to_string()
        )
    );
    assert_eq!(
        Error::from_database(DatabaseError::ViolationError()),
        Error::BadRequest("foreign key constraint violation".to_string())
    );
    assert_eq!(
        Error::from_query(BearQLError::SyntaxError {
            msg: "m".to_string(),
            ql: "q".to_string(),
            err_msg: "e".to_string()
        }),
        Error::BadRequest("Syntax Error: m".to_string())
    );
    assert_eq!(
        Error::from_query(BearQLError::EmptyKeyword),
        Error::BadRequest("Empty keyword error".to_string())
    );
    assert_eq!(
        Error::from_search(CommonError::BearQL(BearQLError::EmptyTag)),
        Error::BadRequest("Empty tag name error".to_string())
    );
    assert_eq!(
        Error::from_search(CommonError::InvalidCWD),
        Error::BadRequest("Invalid CWD".to_string())
    );
    assert_eq!(Error::NotFound("x".to_string()).status(), 404);
    assert_eq!(Error::BadRequest("x".to_string()).status(), 400);
    assert_eq!(Error::InternalServer("x".to_string()).status(), 500);
    assert_eq!(Error::MissingAPIKey("x".to_string()).status(), 401);
    assert_eq!(Error::InvalidAPIKey("x".to_string()).status(), 403);
}

#[test]
fn error_messages() {
    assert_eq!(
        BearQLError::SyntaxError {
            msg: "m".to_string(),
            ql: "q".to_string(),
            err_msg: "e".to_string()
        }
        .to_string(),
        "Syntax error: m"
    );
    assert_eq!(BearQLError::EmptyTag.to_string(), "Empty tag name error");
    assert_eq!(BearQLError::EmptyKeyword.to_string(), "Empty keyword error");
    assert_eq!(CommonError::InvalidCWD.to_string(), "Invalid CWD");
    assert_eq!(
        CommonError::BearQL(BearQLError::EmptyTag).to_string(),
        "Empty tag name error"
    );
    assert_eq!(
        DatabaseError::DuplicationError {
            table: "a\"b".to_string()
        }
        .to_string(),
        "duplicate key value violates unique constraint of \"a\\\"b\""
    );
}
