use bearmark::api::{
    check_move_in, check_move_out, check_tag_changes, deletion_outcome, not_found,
    split_changes, tag_deletion_outcome, Error, ModifyBookmark,
};
use bearmark::folders::{
    ancestor_paths, check_new_folder, children_pattern, lies_directly_in, list_folders,
    normalize_folder_path,
};
use bearmark::matching::{below_pattern, contains_pattern};
use bearmark::store::{BookmarkTag, Folder, Tag};
use bearmark::tags::{knows, links_for, missing_names};
use bearmark::web::{bookmark_path, bookmarks_path, count_line, folder_line, tags_line};
use bearmark::web::BookmarkSearchParams;
use time::OffsetDateTime;

fn folder(id: i32, path: &str) -> Folder {
    Folder {
        id,
        path: path.to_string(),
        created_at: OffsetDateTime::UNIX_EPOCH,
        updated_at: OffsetDateTime::UNIX_EPOCH,
    }
}

fn tag(id: i32, name: &str) -> Tag {
    Tag {
        id,
        name: name.to_string(),
        created_at: OffsetDateTime::UNIX_EPOCH,
        updated_at: OffsetDateTime::UNIX_EPOCH,
    }
}

fn bookmark(id: i32, folder_id: Option<i32>) -> bearmark::store::Bookmark {
    bearmark::store::Bookmark {
        id,
        title: "t".to_string(),
        url: "u".to_string(),
        created_at: OffsetDateTime::UNIX_EPOCH,
        deleted_at: None,
        updated_at: OffsetDateTime::UNIX_EPOCH,
        folder_id,
    }
}

#[test]
fn folder_paths_are_normalized() {
    assert_eq!(normalize_folder_path("/a/b"), "/a/b");
    assert_eq!(normalize_folder_path("a/b/"), "/a/b");
    assert_eq!(normalize_folder_path("//a//b//"), "/a//b");
    assert_eq!(normalize_folder_path("/"), "/");
    assert_eq!(normalize_folder_path(""), "/");
}

#[test]
fn ancestors_come_nearest_first() {
    assert_eq!(ancestor_paths("/a/b/c"), vec!["/a/b/c", "/a/b", "/a"]);
    assert_eq!(ancestor_paths("a/b/"), vec!["/a/b", "/a"]);
    assert_eq!(ancestor_paths("/a"), vec!["/a"]);
    assert_eq!(ancestor_paths("/"), Vec::<String>::new());
    assert_eq!(ancestor_paths(""), Vec::<String>::new());
    assert_eq!(ancestor_paths("a//b"), vec!["/a//b", "/a/", "/a"]);
}

#[test]
fn a_new_folder_needs_its_parents_and_a_free_path() {
    assert_eq!(check_new_folder(&vec![]), Ok(()));
    assert_eq!(check_new_folder(&vec![None]), Ok(()));
    assert_eq!(
        check_new_folder(&vec![None, Some(folder(1, "/a")), Some(folder(2, "/"))]),
        Ok(())
    );
    assert_eq!(
        check_new_folder(&vec![Some(folder(3, "/a/b")), Some(folder(1, "/a"))]),
        Err(Error::BadRequest("Folder already exists: /a/b".to_string()))
    );
    assert_eq!(
        check_new_folder(&vec![Some(folder(3, "/a/b")), None]),
        Err(Error::BadRequest("Folder already exists: /a/b".to_string()))
    );
    assert_eq!(
        check_new_folder(&vec![None, Some(folder(1, "/a/b")), None]),
        Err(Error::NotFound("Parent folder does not exist".to_string()))
    );
}

#[test]
fn children_of_a_folder() {
    assert!(lies_directly_in("/a/b", "/a"));
    assert!(lies_directly_in("/a/b", "/a/"));
    assert!(lies_directly_in("/a", "/"));
    assert!(lies_directly_in("/a", ""));
    assert!(lies_directly_in("/a/", "/a"));
    assert!(!lies_directly_in("/a/b/c", "/a"));
    assert!(!lies_directly_in("/a", "/a"));
    assert!(!lies_directly_in("/ab", "/a"));
    assert!(!lies_directly_in("/b/c", "/a"));

    let folders = vec![
        folder(1, "/a"),
        folder(2, "/a/b"),
        folder(3, "/c"),
        folder(4, "/a/b/d"),
        folder(5, "/a/e"),
    ];
    let ids = |v: Vec<Folder>| v.iter().map(|f| f.id).collect::<Vec<_>>();
    assert_eq!(ids(list_folders(&folders, "/")), vec![1, 3]);
    assert_eq!(ids(list_folders(&folders, "")), vec![1, 3]);
    assert_eq!(ids(list_folders(&folders, "/a")), vec![2, 5]);
    assert_eq!(ids(list_folders(&folders, "/a/b/")), vec![4]);
    assert_eq!(ids(list_folders(&folders, "/x")), Vec::<i32>::new());
}

#[test]
fn changes_are_split() {
    let none = ModifyBookmark {
        title: None,
        url: None,
        tags: None,
    };
    assert_eq!(
        split_changes(none),
        Err(Error::BadRequest("No changes".to_string()))
    );
    let tags_only = ModifyBookmark {
        title: None,
        url: None,
        tags: Some(vec![]),
    };
    assert_eq!(split_changes(tags_only), Ok((None, Some(vec![]))));
    let title_only = ModifyBookmark {
        title: Some("t".to_string()),
        url: None,
        tags: None,
    };
    assert_eq!(
        split_changes(title_only),
        Ok((
            Some(bearmark::store::ModifyBookmark {
                title: Some("t".to_string()),
                url: None
            }),
            None
        ))
    );
    let all = ModifyBookmark {
        title: None,
        url: Some("u".to_string()),
        tags: Some(vec!["x".to_string()]),
    };
    assert_eq!(
        split_changes(all),
        Ok((
            Some(bearmark::store::ModifyBookmark {
                title: None,
                url: Some("u".to_string())
            }),
            Some(vec!["x".to_string()])
        ))
    );
}

#[test]
fn deleting_and_moving() {
    assert_eq!(deletion_outcome(1), Ok("Deleted"));
    assert_eq!(
        deletion_outcome(0),
        Err(Error::NotFound("Bookmark not found".to_string()))
    );
    assert_eq!(
        deletion_outcome(2),
        Err(Error::NotFound("Bookmark not found".to_string()))
    );

    assert_eq!(
        check_move_in(None, 1),
        Err(Error::NotFound("Bookmark not found".to_string()))
    );
    assert_eq!(
        check_move_in(Some(&bookmark(1, Some(1))), 1),
        Err(Error::BadRequest(
            "Bookmark is already in this folder".to_string()
        ))
    );
    assert_eq!(check_move_in(Some(&bookmark(1, Some(2))), 1), Ok(()));
    assert_eq!(check_move_in(Some(&bookmark(1, None)), 1), Ok(()));

    assert_eq!(
        check_move_out(None),
        Err(Error::NotFound("Bookmark not found".to_string()))
    );
    assert_eq!(
        check_move_out(Some(&bookmark(1, None))),
        Err(Error::BadRequest("Bookmark is not in a folder".to_string()))
    );
    assert_eq!(check_move_out(Some(&bookmark(1, Some(7)))), Ok(7));
}

#[test]
fn a_bookmark_is_shown_with_its_details() {
    let shown = bearmark::api::Bookmark::from_details((
        bookmark(4, Some(2)),
        Some(folder(2, "/a/b")),
        vec![tag(1, "x"), tag(2, "y")],
    ));
    assert_eq!(
        shown,
        bearmark::api::Bookmark {
            id: 4,
            title: "t".to_string(),
            url: "u".to_string(),
            folder: Some("/a/b".to_string()),
            tags: vec!["x".to_string(), "y".to_string()],
            created_at: OffsetDateTime::UNIX_EPOCH,
            deleted_at: None,
            updated_at: OffsetDateTime::UNIX_EPOCH,
        }
    );
    let shown = bearmark::api::Bookmark::from_details((bookmark(4, None), None, vec![]));
    assert_eq!(shown.folder, None);
    assert!(shown.tags.is_empty());
}

#[test]
fn tags_to_make_and_links_to_write() {
    let found = vec![tag(1, "a"), tag(2, "b")];
    assert!(knows(&found, &"a".to_string()));
    assert!(!knows(&found, &"A".to_string()));
    let names = vec![
        "c".to_string(),
        "a".to_string(),
        "d".to_string(),
        "c".to_string(),
    ];
    assert_eq!(missing_names(&names, &found), vec!["c", "d", "c"]);
    assert_eq!(missing_names(&names, &vec![]), names);
    assert_eq!(missing_names(&vec![], &found), Vec::<String>::new());
    assert_eq!(
        links_for(9, &found),
        vec![
            BookmarkTag {
                bookmark_id: 9,
                tag_id: 1
            },
            BookmarkTag {
                bookmark_id: 9,
                tag_id: 2
            }
        ]
    );
}

#[test]
fn paths_of_the_api() {
    assert_eq!(bookmarks_path(None), "/bookmarks/");
    assert_eq!(
        bookmarks_path(Some(BookmarkSearchParams::new())),
        "/bookmarks/"
    );
    assert_eq!(
        bookmarks_path(Some(BookmarkSearchParams::new().with_limit(3))),
        "/bookmarks/?limit=3"
    );
    assert_eq!(bookmark_path(12), "/bookmarks/12");
    assert_eq!(bookmark_path(-1), "/bookmarks/-1");
}

#[test]
fn lines_of_a_card() {
    assert_eq!(tags_line(&vec![]), "No tags");
    assert_eq!(tags_line(&vec!["".to_string()]), "No tags");
    assert_eq!(tags_line(&vec!["a".to_string()]), "Tags: a");
    assert_eq!(
        tags_line(&vec!["a".to_string(), "b".to_string(), "c".to_string()]),
        "Tags: a, b, c"
    );
    assert_eq!(
        tags_line(&vec!["".to_string(), "".to_string()]),
        "Tags: , "
    );
    assert_eq!(folder_line(None), "No folder");
    assert_eq!(folder_line(Some("/a".to_string())), "/a");
    assert_eq!(count_line(0), "0 bookmarks");
    assert_eq!(count_line(12), "12 bookmarks");
}

#[test]
fn tags_are_deleted_and_changed() {
    assert_eq!(tag_deletion_outcome(1), Ok("Deleted"));
    assert_eq!(
        tag_deletion_outcome(0),
        Err(Error::NotFound("Tag not found".to_string()))
    );
    assert_eq!(check_tag_changes(&Some("n".to_string())), Ok(()));
    assert_eq!(
        check_tag_changes(&None),
        Err(Error::BadRequest("No changes".to_string()))
    );
    assert_eq!(
        not_found("Folder"),
        Error::NotFound("Folder not found".to_string())
    );
}

#[test]
fn patterns_stand_for_the_text_itself() {
    assert_eq!(contains_pattern("rust"), "%rust%");
    assert_eq!(contains_pattern("a_b%c\\d"), "%a\\_b\\%c\\\\d%");
    assert_eq!(contains_pattern(""), "%%");
    assert_eq!(below_pattern("/a_b"), "/a\\_b/%");
    assert_eq!(children_pattern("/a_b//"), "/a\\_b/%");
    assert_eq!(children_pattern("/"), "/%");
    assert_eq!(children_pattern(""), "/%");
}
