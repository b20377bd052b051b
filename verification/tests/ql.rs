use bearmark::errors::BearQLError;
use bearmark::lexer::{tokenize, Token};
use bearmark::parser::{parse_query, parse_tokens};
use bearmark::query::Query;
use bearmark::text::to_chars;

fn path(s: &str) -> Query {
    Query::Path(s.to_string())
}

fn tag(s: &str) -> Query {
    Query::Tag(s.to_string())
}

fn keyword(s: &str) -> Query {
    Query::Keyword(s.to_string())
}

fn or(a: Query, b: Query) -> Query {
    Query::Or(Box::new(a), Box::new(b))
}

fn and(a: Query, b: Query) -> Query {
    Query::And(Box::new(a), Box::new(b))
}

fn parenthesized(a: Query) -> Query {
    Query::Parenthesized(Box::new(a))
}

#[test]
fn test_primitive_path() {
    for src in [
        "/",
        "./",
        "/bar",
        "/bar/",
        "/bar/boo",
        "/bar/boo/",
        "./bar",
        "./bar/",
        "./bar/boo",
        "./bar/boo/",
        "//",
        ".//",
        "/boo//",
        "./boo//",
    ] {
        let rv = parse_query(src);
        assert!(rv.is_ok());
        assert_eq!(rv.unwrap(), path(src));
    }
}

#[test]
fn test_primitive_tag() {
    for src in ["", "foo", "foo_bar"] {
        let rv = parse_query(&format!("#{}", src));
        assert!(rv.is_ok());
        assert_eq!(rv.unwrap(), tag(src));
    }
}

#[test]
fn test_primitive_keyword() {
    for src in ["foo", "foo_bar"] {
        let rv = parse_query(src);
        assert!(rv.is_ok());
        assert_eq!(rv.unwrap(), keyword(src));
    }
}

#[test]
fn test_query_and() {
    let src = r#"#title | trust rust"#;
    let rv = parse_query(src);
    assert!(rv.is_ok());
    assert_eq!(
        rv.unwrap(),
        or(tag("title"), and(keyword("trust"), keyword("rust")))
    );
}

#[test]
fn test_parsing() {
    for src in [
        r#"title #rust"#,
        r#"/cs/pl/rust"#,
        r#"/cs/pl title"#,
        r#"/cs/pl title #rust"#,
        r#"/cs title #rust"#,
        r#"title | #rust"#,
        r#"title | #rust #langs"#,
        r#"title ( #rust  #langs )"#,
        r#"title ( #rust | #langs )"#,
        r#"/blog/"#,
    ] {
        let rv = parse_query(src);
        assert!(rv.is_ok());
    }
}

#[test]
fn search_test_parsing() {
    for src in [
        r#"/cs/pl/rust title #rust"#,
        r#"/cs/pl title #rust"#,
        r#"/cs title #rust"#,
        r#"title | #rust"#,
        r#"title | #rust #langs"#,
        r#"title ( #rust  #langs )"#,
        r#"title ( #rust | #langs )"#,
        r#"/blog/"#,
    ] {
        let rv = parse_query(src);
        assert!(rv.is_ok());
    }
}

#[test]
fn test_parse_query() {
    for (raw, expect) in [
        ("rust", keyword("rust")),
        ("#rust", tag("rust")),
        ("/", path("/")),
        ("./", path("./")),
        ("./langs/rust", path("./langs/rust")),
        ("./langs/rust//", path("./langs/rust//")),
        ("//", path("//")),
        (".//", path(".//")),
        ("/blog/", path("/blog/")),
        ("title #rust", and(keyword("title"), tag("rust"))),
        (
            "rust | langs go",
            or(keyword("rust"), and(keyword("langs"), keyword("go"))),
        ),
        (
            "(rust | langs) go",
            and(
                parenthesized(or(keyword("rust"), keyword("langs"))),
                keyword("go"),
            ),
        ),
        (
            "(#rust | #go) test",
            and(parenthesized(or(tag("rust"), tag("go"))), keyword("test")),
        ),
    ] {
        let query = parse_query(raw).unwrap();
        assert_eq!(query, expect);
    }
}

#[test]
fn search_test_parse_query() {
    for (raw, expect) in [
        ("rust", keyword("rust")),
        ("#rust", tag("rust")),
        ("/", path("/")),
        ("./", path("./")),
        ("./langs/rust", path("./langs/rust")),
        ("./langs/rust//", path("./langs/rust//")),
        ("//", path("//")),
        (".//", path(".//")),
        ("/blog/", path("/blog/")),
        (
            "rust | langs go",
            or(keyword("rust"), and(keyword("langs"), keyword("go"))),
        ),
        (
            "(rust | langs) go",
            and(
                parenthesized(or(keyword("rust"), keyword("langs"))),
                keyword("go"),
            ),
        ),
        (
            "(#rust | #go) test",
            and(parenthesized(or(tag("rust"), tag("go"))), keyword("test")),
        ),
    ] {
        let query = parse_query(raw).unwrap();
        assert_eq!(query, expect);
    }
}

#[test]
fn parse_classifies_primitives() {
    assert_eq!(parse_query("rust").unwrap(), keyword("rust"));
    assert_eq!(parse_query("#rust").unwrap(), tag("rust"));
    assert_eq!(parse_query("/a/b").unwrap(), path("/a/b"));
    assert_eq!(parse_query(".").unwrap(), path("."));
    assert_eq!(parse_query("  rust\t").unwrap(), keyword("rust"));
}

#[test]
fn words_of_any_script() {
    assert_eq!(parse_query("caf\u{e9}").unwrap(), keyword("caf\u{e9}"));
    assert_eq!(
        parse_query("\u{65e5}\u{672c}\u{8a9e} #\u{fc}ber").unwrap(),
        and(
            keyword("\u{65e5}\u{672c}\u{8a9e}"),
            tag("\u{fc}ber")
        )
    );
    assert_eq!(
        parse_query("/dossier/\u{e9}t\u{e9}//").unwrap(),
        path("/dossier/\u{e9}t\u{e9}//")
    );
    // a combining mark, an Arabic digit and a connector are word characters
    assert_eq!(
        parse_query("e\u{301}\u{663}\u{203f}").unwrap(),
        keyword("e\u{301}\u{663}\u{203f}")
    );
    // a no-break space separates words
    assert_eq!(
        parse_query("a\u{a0}b").unwrap(),
        and(keyword("a"), keyword("b"))
    );
}

#[test]
fn parse_operators_associate_to_the_left() {
    assert_eq!(
        parse_query("a b c").unwrap(),
        and(and(keyword("a"), keyword("b")), keyword("c"))
    );
    assert_eq!(
        parse_query("a | b | c").unwrap(),
        or(or(keyword("a"), keyword("b")), keyword("c"))
    );
    assert_eq!(
        parse_query("a b | c d").unwrap(),
        or(
            and(keyword("a"), keyword("b")),
            and(keyword("c"), keyword("d"))
        )
    );
}

#[test]
fn parse_keeps_parentheses() {
    assert_eq!(parse_query("(a)").unwrap(), parenthesized(keyword("a")));
    assert_eq!(
        parse_query("((a))").unwrap(),
        parenthesized(parenthesized(keyword("a")))
    );
    assert_eq!(
        parse_query("a(b)").unwrap(),
        and(keyword("a"), parenthesized(keyword("b")))
    );
}

#[test]
fn parse_quoted_keyword() {
    assert_eq!(
        parse_query("\"hello world\"").unwrap(),
        keyword("hello world")
    );
    assert_eq!(
        parse_query("\"a|b\" c").unwrap(),
        and(keyword("a|b"), keyword("c"))
    );
    assert_eq!(parse_query("\"\"").unwrap(), keyword(""));
}

fn syntax_error(raw: &str) -> (String, String, String) {
    match parse_query(raw) {
        Err(BearQLError::SyntaxError { msg, ql, err_msg }) => (msg, ql, err_msg),
        other => panic!("expected a syntax error, got {:?}", other),
    }
}

#[test]
fn parse_rejects_what_the_grammar_does_not_cover() {
    for raw in [
        "", "   ", "|", "a |", "| a", "(", ")", "(a", "a)", "()", "a | | b",
    ] {
        let (msg, ql, err_msg) = syntax_error(raw);
        assert_eq!(msg, "failed to parse query");
        assert_eq!(ql, raw);
        assert_eq!(err_msg, "unexpected token or end of query");
    }
    for raw in [
        "a/b", "a.b", "///", "/a///", "..", "/a.", "#a#b", "\"open", "\"a\"b", "a-b", "a\u{2014}b",
        "/a/-", "1\u{bd}",
    ] {
        let (msg, ql, err_msg) = syntax_error(raw);
        assert_eq!(msg, "failed to parse query");
        assert_eq!(ql, raw);
        assert_eq!(err_msg, "unreadable term");
    }
}

#[test]
fn tokens_of_a_query() {
    let tokens = tokenize(&to_chars("(#a | ./b//) \"c d\" e")).unwrap();
    assert_eq!(
        tokens,
        vec![
            Token::Open,
            Token::Tag("a".to_string()),
            Token::Pipe,
            Token::Path("./b//".to_string()),
            Token::Close,
            Token::Keyword("c d".to_string()),
            Token::Keyword("e".to_string()),
        ]
    );
    assert_eq!(tokenize(&to_chars("")).unwrap(), vec![]);
    assert_eq!(tokenize(&to_chars("a\u{3000}b")).unwrap().len(), 2);
    assert!(tokenize(&to_chars("a,b")).is_none());
}

#[test]
fn tokens_spell_a_query_or_none() {
    let tokens = vec![Token::Keyword("a".to_string()), Token::Tag("b".to_string())];
    assert_eq!(parse_tokens(&tokens), Some(and(keyword("a"), tag("b"))));
    assert_eq!(parse_tokens(&vec![Token::Pipe]), None);
    assert_eq!(parse_tokens(&vec![]), None);
    assert_eq!(
        parse_tokens(&vec![Token::Keyword("a".to_string()), Token::Close]),
        None
    );
}
