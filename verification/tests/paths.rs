use bearmark::errors::CommonError;
use bearmark::path::{
    find_bookmarks_in_path, join_folder_path, resolve_path, resolve_term, ResolvedPath,
};

#[test]
fn test_join_path() {
    for (cwd, p, expect) in &[
        ("/", "./a", "/a"),
        ("/b", "/a", "/a"),
        ("/", "./a/", "/a/"),
        ("/b", "/a/", "/a/"),
        ("/", "./a//", "/a//"),
        ("/b", "/a//", "/a//"),
        ("/", "/a/b", "/a/b"),
        ("/", "./a/b", "/a/b"),
        ("/a", "./b/c", "/a/b/c"),
        ("/a", "./b/c/", "/a/b/c/"),
        ("/", "./", "/"),
        ("/", "/", "/"),
    ] {
        let rv = join_folder_path(cwd, p);
        assert_eq!(rv, *expect);
    }
}

#[test]
fn search_test_join_path() {
    for (cwd, p, expect) in &[
        ("/", "./a", "/a"),
        ("/b", "/a", "/a"),
        ("/", "./a/", "/a/"),
        ("/b", "/a/", "/a/"),
        ("/", "./a//", "/a//"),
        ("/b", "/a//", "/a//"),
        ("/", "/a/b", "/a/b"),
        ("/", "./a/b", "/a/b"),
        ("/a", "./b/c", "/a/b/c"),
        ("/a", "./b/c/", "/a/b/c/"),
    ] {
        let rv = join_folder_path(cwd, p);
        assert_eq!(rv, *expect);
    }
}

#[test]
fn join_drops_dot_segments_and_closing_slashes_of_cwd() {
    assert_eq!(join_folder_path("/a", "."), "/a");
    assert_eq!(join_folder_path("/a/", "./b"), "/a/b");
    assert_eq!(join_folder_path("/a//", ".//"), "/a//");
    assert_eq!(join_folder_path("/", ".//"), "//");
    assert_eq!(join_folder_path("/a/./b", "./c"), "/a/b/c");
    assert_eq!(join_folder_path("", "."), "/");
    assert_eq!(join_folder_path("/a", ""), "/a/");
    assert_eq!(join_folder_path("/a", "b"), "/a/b");
}

#[test]
fn resolve_tells_the_four_forms() {
    assert_eq!(resolve_path("/"), Ok(ResolvedPath::Root));
    assert_eq!(resolve_path("//"), Ok(ResolvedPath::RootOnly));
    assert_eq!(
        resolve_path("/a/b"),
        Ok(ResolvedPath::FolderAndDescendants("/a/b".to_string()))
    );
    assert_eq!(
        resolve_path("/a/b/"),
        Ok(ResolvedPath::FolderAndDescendants("/a/b".to_string()))
    );
    assert_eq!(
        resolve_path("/a/b//"),
        Ok(ResolvedPath::FolderOnly("/a/b".to_string()))
    );
    assert_eq!(
        resolve_path("/a///"),
        Ok(ResolvedPath::FolderOnly("/a".to_string()))
    );
    assert_eq!(resolve_path("///"), Err(CommonError::InvalidCWD));
    assert_eq!(resolve_path(""), Err(CommonError::InvalidCWD));
}

#[test]
fn a_path_of_slashes_names_no_folder() {
    assert_eq!(find_bookmarks_in_path("/"), Err(CommonError::InvalidCWD));
    assert_eq!(find_bookmarks_in_path("//"), Err(CommonError::InvalidCWD));
    assert_eq!(
        find_bookmarks_in_path("x"),
        Ok(ResolvedPath::FolderAndDescendants("x".to_string()))
    );
}

#[test]
fn a_bare_dot_is_the_folder_itself() {
    assert_eq!(join_folder_path("/", "."), "/");
    assert_eq!(join_folder_path("//", "."), "/");
    assert_eq!(join_folder_path("/", "./"), "/");
    assert_eq!(join_folder_path("/", "./."), "/");
    assert_eq!(join_folder_path("/a/b", "."), "/a/b");
    assert_eq!(join_folder_path("/a/b/", "."), "/a/b");
    assert_eq!(resolve_path(&join_folder_path("/", ".")), Ok(ResolvedPath::Root));
    assert_eq!(
        resolve_path(&join_folder_path("/a", ".")),
        Ok(ResolvedPath::FolderAndDescendants("/a".to_string()))
    );
}

#[test]
fn a_path_asked_from_a_folder_is_absolute() {
    for cwd in ["/", "/a", "/a/b/", "//"] {
        for p in [".", "./", ".//", "./x", "./x/y/", "./x//", "/", "//", "/x", "/x//"] {
            let joined = join_folder_path(cwd, p);
            assert!(joined.starts_with('/'), "{} {} {}", cwd, p, joined);
            assert!(joined.split('/').all(|s| s != "."));
            assert_eq!(joined.ends_with("//"), p.ends_with("//"));
            assert!(resolve_path(&joined).is_ok());
        }
    }
}

#[test]
fn a_term_always_selects_something() {
    assert_eq!(resolve_term("/"), ResolvedPath::Root);
    assert_eq!(resolve_term("//"), ResolvedPath::RootOnly);
    assert_eq!(resolve_term("///"), ResolvedPath::RootOnly);
    assert_eq!(
        resolve_term("/a/"),
        ResolvedPath::FolderAndDescendants("/a".to_string())
    );
    assert_eq!(
        resolve_term("/a//"),
        ResolvedPath::FolderOnly("/a".to_string())
    );
    for path in ["/", "//", "/a", "/a/b/", "/a//", "x"] {
        assert_eq!(Ok(resolve_term(path)), resolve_path(path));
    }
}
