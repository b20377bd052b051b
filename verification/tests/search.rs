use bearmark::compiler::{find_bookmarks, tag_name_of, Predicate};
use bearmark::details::get_bookmark_details;
use bearmark::errors::{BearQLError, CommonError};
use bearmark::parser::parse_query;
use bearmark::path::ResolvedPath;
use bearmark::query::Query;
use bearmark::search::{plan_search, search_bookmarks, SearchPlan};
use bearmark::store::{Bookmark, BookmarkTag, Folder, Store, Tag};
use time::OffsetDateTime;

fn empty_store() -> Store {
    Store {
        bookmarks: vec![],
        folders: vec![],
        tags: vec![],
        bookmarks_tags: vec![],
    }
}

fn add_bookmark(store: &mut Store, title: &str, url: &str) -> i32 {
    let id = store.bookmarks.iter().map(|b| b.id).max().unwrap_or(0) + 1;
    store.bookmarks.push(Bookmark {
        id,
        title: title.to_string(),
        url: url.to_string(),
        created_at: OffsetDateTime::UNIX_EPOCH,
        deleted_at: None,
        updated_at: OffsetDateTime::UNIX_EPOCH,
        folder_id: None,
    });
    id
}

fn add_folder(store: &mut Store, path: &str) -> i32 {
    let id = store.folders.len() as i32 + 1;
    store.folders.push(Folder {
        id,
        path: path.to_string(),
        created_at: OffsetDateTime::UNIX_EPOCH,
        updated_at: OffsetDateTime::UNIX_EPOCH,
    });
    id
}

fn add_tags(store: &mut Store, bookmark_id: i32, names: &[&str]) {
    for name in names {
        let tag_id = match store.tags.iter().find(|t| t.name == *name) {
            Some(t) => t.id,
            None => {
                let id = store.tags.len() as i32 + 1;
                store.tags.push(Tag {
                    id,
                    name: name.to_string(),
                    created_at: OffsetDateTime::UNIX_EPOCH,
                    updated_at: OffsetDateTime::UNIX_EPOCH,
                });
                id
            }
        };
        store.bookmarks_tags.push(BookmarkTag {
            bookmark_id,
            tag_id,
        });
    }
}

fn move_bookmark(store: &mut Store, bookmark_id: i32, folder_id: Option<i32>) {
    for b in store.bookmarks.iter_mut() {
        if b.id == bookmark_id {
            b.folder_id = folder_id;
        }
    }
}

fn delete_bookmark(store: &mut Store, bookmark_id: i32) {
    for b in store.bookmarks.iter_mut() {
        if b.id == bookmark_id {
            b.deleted_at = Some(OffsetDateTime::UNIX_EPOCH);
        }
    }
}

fn searchable_bookmarks() -> Store {
    let mut store = empty_store();
    for (title, url, tags) in [
        ("Weather", "https://weather.com", ["weather", "forecast"]),
        ("News", "https://news.com", ["news", "world"]),
        ("Sports", "https://sports.com", ["sports", "football"]),
        ("Tech", "https://tech.com", ["tech", "gadgets"]),
        ("Weather Global", "https://example.com", ["weather", "global"]),
        ("Weather West", "https://example.com", ["weather", "west"]),
    ] {
        let id = add_bookmark(&mut store, title, url);
        add_tags(&mut store, id, &tags);
    }
    store
}

struct Folders {
    store: Store,
    folder1_path: String,
    folder2_path: String,
    folder2_id: i32,
    folder3_name: String,
}

fn folders_and_bookmarks(mut store: Store) -> Folders {
    let folder1_path = "/Kq3ZxW81ab".to_string();
    let folder2_path = "/p0Lm4NcQ7d".to_string();
    let folder3_name = "s9TtUv2YyE".to_string();
    let folder3_path = format!("{}/{}", folder1_path, folder3_name);
    let mut folder2_id = 0;
    let mut n = 0;
    for (path, count) in [
        (folder1_path.clone(), 10),
        (folder2_path.clone(), 1),
        (folder3_path.clone(), 1),
    ] {
        let folder_id = add_folder(&mut store, &path);
        if path == folder2_path {
            folder2_id = folder_id;
        }
        for _ in 0..count {
            n += 1;
            let id = add_bookmark(
                &mut store,
                &format!("title{}", n),
                &format!("https://site{}.example", n),
            );
            move_bookmark(&mut store, id, Some(folder_id));
        }
    }
    Folders {
        store,
        folder1_path,
        folder2_path,
        folder2_id,
        folder3_name,
    }
}

fn count(store: &Store, query: Option<&str>, cwd: Option<&str>) -> usize {
    search_bookmarks(store, query, cwd, 0, 100).unwrap().len()
}

fn ids(rows: &[(Bookmark, Option<Folder>, Vec<Tag>)]) -> Vec<i32> {
    rows.iter().map(|r| r.0.id).collect()
}

#[test]
fn search_bookmarks_with_pagination() {
    let store = searchable_bookmarks();

    let rv = search_bookmarks(&store, None, None, 0, 10).unwrap();
    assert!(rv.len() >= 5);

    let rv = search_bookmarks(&store, Some("Weather"), None, 0, 10).unwrap();
    assert!(rv.len() >= 3);

    let rv = search_bookmarks(&store, Some("Weather"), None, 0, 2).unwrap();
    assert!(rv.len() == 2);
    assert_eq!(ids(&rv), vec![6, 5]);

    let rv = search_bookmarks(&store, Some("Weather"), None, rv[1].0.id, 2).unwrap();
    assert!(rv.len() == 1);
    assert_eq!(ids(&rv), vec![1]);
}

#[test]
fn unsearchable_deleted_bookmark() {
    let mut store = searchable_bookmarks();
    let title = "Zx81Qp77Lm";
    let id = add_bookmark(&mut store, title, "https://zx81.example");

    let result = search_bookmarks(&store, Some(title), None, 0, 1).unwrap();
    assert_eq!(result.len(), 1);
    assert!(result[0].0.deleted_at.is_none());

    delete_bookmark(&mut store, id);
    assert_eq!(store.bookmarks.iter().filter(|b| b.id == id).count(), 1);

    let result = search_bookmarks(&store, Some(title), None, 0, 1).unwrap();
    assert_eq!(result.len(), 0);
    let result = search_bookmarks(&store, None, None, 0, 100).unwrap();
    assert!(result.iter().all(|r| r.0.id != id));
}

#[test]
fn test_search_bookmarks_with_tags() {
    let store = searchable_bookmarks();

    assert_eq!(count(&store, Some("Weather"), None), 3);
    assert_eq!(count(&store, Some("Weather #global"), None), 1);
    assert_eq!(count(&store, Some("Weather #west"), None), 1);
    assert_eq!(count(&store, Some("Weather #west #global"), None), 0);
    assert_eq!(count(&store, Some("#weather #global"), None), 1);
    assert_eq!(count(&store, Some("#weather"), None), 3);
    assert_eq!(count(&store, Some("#Weather"), None), 0);
    assert_eq!(count(&store, Some("#weath"), None), 0);

    let rv = search_bookmarks(&store, Some("#weather"), None, 0, 1).unwrap();
    assert_eq!(rv.len(), 1);

    let rv = search_bookmarks(&store, Some("#weather"), None, rv[0].0.id, 3).unwrap();
    assert_eq!(rv.len(), 2);
}

#[test]
fn search_bookmarks_in_folders() {
    let f = folders_and_bookmarks(empty_store());

    assert_eq!(count(&f.store, Some(&f.folder1_path), None), 11);
    assert_eq!(count(&f.store, Some(&f.folder2_path), None), 1);

    let query = format!("{} | {}", f.folder1_path, f.folder2_path);
    assert_eq!(count(&f.store, Some(&query), None), 12);

    let query = format!("{}//", f.folder1_path);
    assert_eq!(count(&f.store, Some(&query), None), 10);

    let query = format!("{}// | {}", f.folder1_path, f.folder2_path);
    assert_eq!(count(&f.store, Some(&query), None), 11);
}

#[test]
fn search_bookmarks_in_folders_pagination() {
    let f = folders_and_bookmarks(empty_store());

    let query = format!("{} | {}", f.folder1_path, f.folder2_path);
    let rv = search_bookmarks(&f.store, Some(&query), None, 0, 5).unwrap();
    assert_eq!(rv.len(), 5);

    let rv = search_bookmarks(&f.store, Some(&query), None, rv[4].0.id, 100).unwrap();
    assert_eq!(rv.len(), 7);

    let rv = search_bookmarks(&f.store, Some(&query), None, 0, 1).unwrap();
    assert_eq!(rv.len(), 1);
}

#[test]
fn search_bookmarks_in_folders_after_normalizing() {
    let f = folders_and_bookmarks(empty_store());
    let query = format!("{}/", f.folder1_path);
    assert_eq!(count(&f.store, Some(&query), None), 11);
}

#[test]
fn search_bookmarks_with_invalid_cwd() {
    let store = empty_store();
    let rv = search_bookmarks(&store, None, Some("///"), 0, 100);
    assert!(rv.is_err());
    assert!(matches!(rv.unwrap_err(), CommonError::InvalidCWD));
}

#[test]
fn search_bookmarks_in_root() {
    let mut store = empty_store();
    add_bookmark(&mut store, "loose", "https://loose.example");
    let f = folders_and_bookmarks(store);

    assert_eq!(count(&f.store, None, None), 13);
    assert_eq!(count(&f.store, Some("/"), None), 13);
    assert_eq!(count(&f.store, Some("//"), None), 1);
    assert_eq!(count(&f.store, None, Some("//")), 1);
    assert_eq!(count(&f.store, None, Some("/")), 13);
}

#[test]
fn search_bookmarks_in_folders_from_cwd() {
    let mut f = folders_and_bookmarks(empty_store());

    assert_eq!(count(&f.store, None, Some(&f.folder1_path)), 11);
    assert_eq!(count(&f.store, None, Some(&f.folder2_path)), 1);

    let query = format!("./{}", f.folder3_name);
    assert_eq!(count(&f.store, Some(&query), Some(&f.folder1_path)), 1);

    let query = format!("./{} | ./", f.folder3_name);
    assert_eq!(count(&f.store, Some(&query), Some(&f.folder1_path)), 11);

    let query = format!("./{} | .//", f.folder3_name);
    assert_eq!(count(&f.store, Some(&query), Some(&f.folder1_path)), 11);

    assert_eq!(count(&f.store, Some(".//"), Some(&f.folder1_path)), 10);

    // the path of the query wins over the folder that the search starts from
    assert_eq!(
        count(&f.store, Some(&f.folder2_path), Some(&f.folder1_path)),
        1
    );

    let title = "Hh3Jk2Ll9M";
    let id = add_bookmark(&mut f.store, title, "https://hh3.example");
    assert_eq!(count(&f.store, Some(title), None), 1);
    assert_eq!(count(&f.store, Some(title), Some(&f.folder2_path)), 0);
    move_bookmark(&mut f.store, id, Some(f.folder2_id));
    assert_eq!(count(&f.store, Some(title), Some(&f.folder2_path)), 1);
}

#[test]
fn search_reports_the_failures_of_the_query() {
    let store = searchable_bookmarks();
    assert!(matches!(
        search_bookmarks(&store, Some("#"), None, 0, 10),
        Err(CommonError::BearQL(BearQLError::EmptyTag))
    ));
    assert!(matches!(
        search_bookmarks(&store, Some("#   "), None, 0, 10),
        Err(CommonError::BearQL(BearQLError::EmptyTag))
    ));
    assert!(matches!(
        search_bookmarks(&store, Some("a | #"), Some("///"), 0, 10),
        Err(CommonError::BearQL(BearQLError::EmptyTag))
    ));
    assert!(matches!(
        search_bookmarks(&store, Some("\"  \""), None, 0, 10),
        Err(CommonError::BearQL(BearQLError::EmptyKeyword))
    ));
    match search_bookmarks(&store, Some("a |"), None, 0, 10) {
        Err(CommonError::BearQL(BearQLError::SyntaxError { msg, ql, err_msg })) => {
            assert_eq!(msg, "failed to parse query");
            assert_eq!(ql, "a |");
            assert_eq!(err_msg, "unexpected token or end of query");
        }
        other => panic!("expected a syntax error, got {:?}", other),
    }
    assert!(matches!(
        search_bookmarks(&store, Some("Weather"), Some("///"), 0, 10),
        Err(CommonError::InvalidCWD)
    ));
    // a query with a path of its own is not held to the folder of the search
    assert_eq!(
        search_bookmarks(&store, Some("/ Weather"), Some("///"), 0, 10)
            .unwrap()
            .len(),
        3
    );
    // syntax comes before the folder
    assert!(matches!(
        search_bookmarks(&store, Some("("), Some("///"), 0, 10),
        Err(CommonError::BearQL(BearQLError::SyntaxError { .. }))
    ));
}

#[test]
fn search_with_limit_zero_is_empty() {
    let store = searchable_bookmarks();
    assert_eq!(search_bookmarks(&store, None, None, 0, 0).unwrap().len(), 0);
}

#[test]
fn search_orders_by_id_and_shows_each_id_once() {
    let mut store = empty_store();
    for id in [3, 7, 5, 7, 1] {
        store.bookmarks.push(Bookmark {
            id,
            title: format!("t{}", id),
            url: "https://x.example".to_string(),
            created_at: OffsetDateTime::UNIX_EPOCH,
            deleted_at: None,
            updated_at: OffsetDateTime::UNIX_EPOCH,
            folder_id: None,
        });
    }
    add_tags(&mut store, 7, &["a", "b"]);
    let rv = search_bookmarks(&store, Some("#a | #b | x"), None, 0, 10).unwrap();
    assert_eq!(ids(&rv), vec![7, 5, 3, 1]);
    let rv = search_bookmarks(&store, None, None, 6, 2).unwrap();
    assert_eq!(ids(&rv), vec![5, 3]);
    // a cursor of zero or less asks for the first page
    let rv = search_bookmarks(&store, None, None, -4, 2).unwrap();
    assert_eq!(ids(&rv), vec![7, 5]);
}

#[test]
fn pages_follow_each_other_without_gap_or_overlap() {
    let f = folders_and_bookmarks(searchable_bookmarks());
    let all = ids(&search_bookmarks(&f.store, None, None, 0, 100).unwrap());
    assert_eq!(all.len(), 18);
    for size in 1..7 {
        let mut seen: Vec<i32> = vec![];
        let mut cursor = 0;
        loop {
            let page = ids(&search_bookmarks(&f.store, None, None, cursor, size).unwrap());
            if page.is_empty() {
                break;
            }
            cursor = *page.last().unwrap();
            seen.extend(page);
        }
        assert_eq!(seen, all);
    }
}

#[test]
fn keyword_matches_title_or_address_whatever_the_case() {
    let mut store = empty_store();
    add_bookmark(&mut store, "The Rust Book", "https://doc.example/BOOK");
    add_bookmark(&mut store, "\u{dc}ber uns", "https://about.example");
    assert_eq!(count(&store, Some("rust"), None), 1);
    assert_eq!(count(&store, Some("RUST"), None), 1);
    assert_eq!(count(&store, Some("book"), None), 1);
    assert_eq!(count(&store, Some("example"), None), 2);
    assert_eq!(count(&store, Some("\"\u{fc}ber\""), None), 1);
    assert_eq!(count(&store, Some("\"rust book\""), None), 1);
    assert_eq!(count(&store, Some("\"rust  book\""), None), 0);
    assert_eq!(count(&store, Some("rusty"), None), 0);
    assert_eq!(count(&store, Some("the_rust"), None), 0);
}

#[test]
fn details_hold_the_folder_and_the_tags_by_name() {
    let mut store = empty_store();
    let id = add_bookmark(&mut store, "a", "https://a.example");
    let other = add_bookmark(&mut store, "b", "https://b.example");
    add_tags(&mut store, id, &["west", "alpha", "global", "al"]);
    add_tags(&mut store, other, &["zeta", "alpha"]);
    let folder = add_folder(&mut store, "/x");
    move_bookmark(&mut store, id, Some(folder));
    move_bookmark(&mut store, other, Some(99));

    let rows = search_bookmarks(&store, None, None, 0, 10).unwrap();
    assert_eq!(ids(&rows), vec![other, id]);
    assert_eq!(rows[0].1, None);
    let names: Vec<&str> = rows[0].2.iter().map(|t| t.name.as_str()).collect();
    assert_eq!(names, vec!["alpha", "zeta"]);
    assert_eq!(rows[1].1.as_ref().map(|f| f.path.as_str()), Some("/x"));
    let names: Vec<&str> = rows[1].2.iter().map(|t| t.name.as_str()).collect();
    assert_eq!(names, vec!["al", "alpha", "global", "west"]);

    let rows = get_bookmark_details(&store, vec![]);
    assert!(rows.is_empty());
    let rows = get_bookmark_details(&store, vec![store.bookmarks[0].clone()]);
    assert_eq!(rows.len(), 1);
    assert_eq!(rows[0].0, store.bookmarks[0]);
    assert_eq!(rows[0].2.len(), 4);
}

#[test]
fn compile_follows_the_tree() {
    let tree = parse_query("(a | #b) ./c//").unwrap();
    let mut overwritten = false;
    let predicate = find_bookmarks(&tree, "/base/", &mut overwritten).unwrap();
    assert!(overwritten);
    assert_eq!(
        predicate,
        Predicate::And(
            Box::new(Predicate::Or(
                Box::new(Predicate::Keyword("a".to_string())),
                Box::new(Predicate::Tag("b".to_string())),
            )),
            Box::new(Predicate::Path(ResolvedPath::FolderOnly(
                "/base/c".to_string()
            ))),
        )
    );

    let tree = parse_query("a #b").unwrap();
    let mut overwritten = false;
    assert!(find_bookmarks(&tree, "/", &mut overwritten).is_ok());
    assert!(!overwritten);

    let mut overwritten = true;
    assert!(find_bookmarks(&tree, "/", &mut overwritten).is_ok());
    assert!(overwritten);

    // the path is met before the empty tag fails the compilation
    let tree = parse_query("/x | #").unwrap();
    let mut overwritten = false;
    assert_eq!(
        find_bookmarks(&tree, "/", &mut overwritten),
        Err(CommonError::BearQL(BearQLError::EmptyTag))
    );
    assert!(overwritten);
    let tree = parse_query("# | /x").unwrap();
    let mut overwritten = false;
    assert!(find_bookmarks(&tree, "/", &mut overwritten).is_err());
    assert!(!overwritten);
}

#[test]
fn compile_resolves_paths() {
    for (cwd, query, expect) in [
        ("/", "/", ResolvedPath::Root),
        ("/a", "/", ResolvedPath::Root),
        ("/", ".", ResolvedPath::Root),
        ("/a", "//", ResolvedPath::RootOnly),
        ("/", ".//", ResolvedPath::RootOnly),
        ("/", "./", ResolvedPath::Root),
        ("/a", ".", ResolvedPath::FolderAndDescendants("/a".to_string())),
        ("/a", "./", ResolvedPath::FolderAndDescendants("/a".to_string())),
        ("/a", ".//", ResolvedPath::FolderOnly("/a".to_string())),
        ("/a", "./b", ResolvedPath::FolderAndDescendants("/a/b".to_string())),
        ("/a", "/b//", ResolvedPath::FolderOnly("/b".to_string())),
    ] {
        let tree = parse_query(query).unwrap();
        let mut overwritten = false;
        let got = find_bookmarks(&tree, cwd, &mut overwritten);
        assert_eq!(got, Ok(Predicate::Path(expect)));
    }
}

#[test]
fn tag_names_are_trimmed_and_lose_one_hash() {
    assert_eq!(tag_name_of("rust"), "rust");
    assert_eq!(tag_name_of("  rust "), "rust");
    assert_eq!(tag_name_of("#rust"), "rust");
    assert_eq!(tag_name_of(" # rust "), "rust");
    assert_eq!(tag_name_of("##rust"), "#rust");
    assert_eq!(tag_name_of("#"), "");
    assert_eq!(tag_name_of(" \t"), "");
    assert_eq!(tag_name_of(""), "");
}

#[test]
fn plan_holds_the_filter_the_folder_and_the_cursor() {
    assert_eq!(
        plan_search(None, None, 0, 10),
        Ok(SearchPlan {
            query: None,
            scope: None,
            before: 0,
            limit: 10
        })
    );
    assert_eq!(
        plan_search(None, Some("/"), 3, 10),
        Ok(SearchPlan {
            query: None,
            scope: None,
            before: 3,
            limit: 10
        })
    );
    assert_eq!(
        plan_search(Some("a"), Some("/f//"), 0, 5),
        Ok(SearchPlan {
            query: Some(Predicate::Keyword("a".to_string())),
            scope: Some(ResolvedPath::FolderOnly("/f".to_string())),
            before: 0,
            limit: 5
        })
    );
    assert_eq!(
        plan_search(Some("./g"), Some("/f"), 0, 5),
        Ok(SearchPlan {
            query: Some(Predicate::Path(ResolvedPath::FolderAndDescendants(
                "/f/g".to_string()
            ))),
            scope: None,
            before: 0,
            limit: 5
        })
    );
    assert_eq!(
        plan_search(Some("./g"), None, 0, 5),
        Ok(SearchPlan {
            query: Some(Predicate::Path(ResolvedPath::FolderAndDescendants(
                "/g".to_string()
            ))),
            scope: None,
            before: 0,
            limit: 5
        })
    );
}

#[test]
fn of_two_rows_with_one_id_the_first_admitted_is_shown() {
    let mut store = empty_store();
    for (id, title) in [(7, "first deleted"), (7, "second"), (7, "third"), (2, "other")] {
        store.bookmarks.push(Bookmark {
            id,
            title: title.to_string(),
            url: "https://x.example".to_string(),
            created_at: OffsetDateTime::UNIX_EPOCH,
            deleted_at: None,
            updated_at: OffsetDateTime::UNIX_EPOCH,
            folder_id: None,
        });
    }
    store.bookmarks[0].deleted_at = Some(OffsetDateTime::UNIX_EPOCH);
    let rows = search_bookmarks(&store, None, None, 0, 10).unwrap();
    assert_eq!(ids(&rows), vec![7, 2]);
    assert_eq!(rows[0].0.title, "second");
    let rows = search_bookmarks(&store, Some("third"), None, 0, 10).unwrap();
    assert_eq!(ids(&rows), vec![7]);
    assert_eq!(rows[0].0.title, "third");
}

#[test]
fn tags_of_one_name_keep_their_order() {
    let mut store = empty_store();
    let id = add_bookmark(&mut store, "a", "https://a.example");
    for (tag_id, name) in [(1, "b"), (2, "a"), (3, "b"), (4, "a")] {
        store.tags.push(Tag {
            id: tag_id,
            name: name.to_string(),
            created_at: OffsetDateTime::UNIX_EPOCH,
            updated_at: OffsetDateTime::UNIX_EPOCH,
        });
    }
    for tag_id in [3, 4, 1, 2, 3] {
        store.bookmarks_tags.push(BookmarkTag {
            bookmark_id: id,
            tag_id,
        });
    }
    let rows = search_bookmarks(&store, None, None, 0, 10).unwrap();
    let tag_ids: Vec<i32> = rows[0].2.iter().map(|t| t.id).collect();
    assert_eq!(tag_ids, vec![4, 2, 3, 1, 3]);
}

#[test]
fn a_bare_dot_searches_the_folder_it_is_asked_from() {
    let mut store = empty_store();
    add_bookmark(&mut store, "loose", "https://loose.example");
    let f = folders_and_bookmarks(store);

    // from the root, and from nowhere, `.` is the root
    assert_eq!(count(&f.store, Some("."), None), 13);
    assert_eq!(count(&f.store, Some("."), Some("/")), 13);
    assert_eq!(count(&f.store, Some("./"), Some("/")), 13);
    assert_eq!(count(&f.store, Some(".//"), Some("/")), 1);
    assert_eq!(count(&f.store, Some(". title1"), None), 4);
    // from a folder it is that folder and the folders below it
    assert_eq!(count(&f.store, Some("."), Some(&f.folder1_path)), 11);
    assert_eq!(count(&f.store, Some("."), Some(&f.folder2_path)), 1);

    let tree = parse_query(".").unwrap();
    let mut overwritten = false;
    assert_eq!(
        find_bookmarks(&tree, "/", &mut overwritten),
        Ok(Predicate::Path(ResolvedPath::Root))
    );
    assert!(overwritten);
    assert_eq!(
        plan_search(Some("."), None, 0, 10),
        Ok(SearchPlan {
            query: Some(Predicate::Path(ResolvedPath::Root)),
            scope: None,
            before: 0,
            limit: 10
        })
    );
}

#[test]
fn a_parsed_query_fails_to_compile_on_empty_terms_alone() {
    for cwd in ["/", "/a", "/a/b//"] {
        for query in [
            ".", "./", ".//", "/", "//", "/x/y//", "./x | #t", "(. | /x) \"k w\"", "a #b ./c",
        ] {
            let tree = parse_query(query).unwrap();
            let mut overwritten = false;
            assert!(find_bookmarks(&tree, cwd, &mut overwritten).is_ok());
        }
        for (query, expect) in [
            ("#", BearQLError::EmptyTag),
            ("a | #", BearQLError::EmptyTag),
            ("(a #) \"\"", BearQLError::EmptyTag),
            ("\" \"", BearQLError::EmptyKeyword),
            ("./x (\"\" | #)", BearQLError::EmptyKeyword),
        ] {
            let tree = parse_query(query).unwrap();
            let mut overwritten = false;
            assert_eq!(
                find_bookmarks(&tree, cwd, &mut overwritten),
                Err(CommonError::BearQL(expect))
            );
        }
    }
}

#[test]
fn a_syntax_error_of_a_search_carries_the_text_and_the_diagnostic() {
    assert_eq!(
        plan_search(Some("a,b"), Some("///"), 0, 10),
        Err(CommonError::BearQL(BearQLError::SyntaxError {
            msg: "failed to parse query".to_string(),
            ql: "a,b".to_string(),
            err_msg: "unreadable term".to_string(),
        }))
    );
    let store = empty_store();
    assert_eq!(
        search_bookmarks(&store, Some("(a"), None, 0, 10),
        Err(CommonError::BearQL(BearQLError::SyntaxError {
            msg: "failed to parse query".to_string(),
            ql: "(a".to_string(),
            err_msg: "unexpected token or end of query".to_string(),
        }))
    );
}

#[test]
fn of_two_folders_with_one_id_the_later_is_found() {
    let mut store = empty_store();
    let id = add_bookmark(&mut store, "a", "https://a.example");
    for path in ["/first", "/second"] {
        store.folders.push(Folder {
            id: 5,
            path: path.to_string(),
            created_at: OffsetDateTime::UNIX_EPOCH,
            updated_at: OffsetDateTime::UNIX_EPOCH,
        });
    }
    add_folder(&mut store, "/other");
    move_bookmark(&mut store, id, Some(5));
    let rows = search_bookmarks(&store, None, None, 0, 10).unwrap();
    assert_eq!(rows[0].1.as_ref().map(|f| f.path.as_str()), Some("/second"));
}

#[test]
fn a_path_term_never_fails_to_compile() {
    for (cwd, text, expect) in [
        ("/", "///", ResolvedPath::RootOnly),
        ("///", ".", ResolvedPath::Root),
        ("", ".", ResolvedPath::Root),
        ("//.", ".//", ResolvedPath::RootOnly),
        ("/a", "", ResolvedPath::FolderAndDescendants("/a".to_string())),
    ] {
        let mut overwritten = false;
        assert_eq!(
            find_bookmarks(&Query::Path(text.to_string()), cwd, &mut overwritten),
            Ok(Predicate::Path(expect))
        );
        assert!(overwritten);
    }
}
