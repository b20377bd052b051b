//! The rows that a search reads: bookmarks, folders, tags and the links
//! between bookmarks and tags.
use vstd::prelude::*;

verus! {

/// A point in time, as the `time` crate holds it. The library carries such
/// values from the rows it reads to the rows it returns and never looks
/// inside.
#[verifier::external_type_specification]
#[verifier::external_body]
pub struct ExOffsetDateTime(time::OffsetDateTime);

/// A bookmark. One with `deleted_at` set is deleted: it stays in the store
/// and no search finds it.
#[derive(Debug, PartialEq, Eq)]
pub struct Bookmark {
    pub id: i32,
    pub title: String,
    pub url: String,
    pub created_at: time::OffsetDateTime,
    pub deleted_at: Option<time::OffsetDateTime>,
    pub updated_at: time::OffsetDateTime,
    pub folder_id: Option<i32>,
}

/// A folder. Its path is absolute and has no closing slash.
#[derive(Debug, PartialEq, Eq)]
pub struct Folder {
    pub id: i32,
    pub path: String,
    pub created_at: time::OffsetDateTime,
    pub updated_at: time::OffsetDateTime,
}

/// A tag.
#[derive(Debug, PartialEq, Eq)]
pub struct Tag {
    pub id: i32,
    pub name: String,
    pub created_at: time::OffsetDateTime,
    pub updated_at: time::OffsetDateTime,
}

/// The link that says that a bookmark carries a tag.
#[derive(Debug, Clone, Copy, PartialEq, Eq)]
pub struct BookmarkTag {
    pub bookmark_id: i32,
    pub tag_id: i32,
}

/// What a new bookmark is made of.
#[derive(Debug, PartialEq, Eq)]
pub struct NewBookmark {
    pub title: String,
    pub url: String,
}

/// The changes to a bookmark: each field is set only where it changes.
#[derive(Debug, PartialEq, Eq)]
pub struct ModifyBookmark {
    pub title: Option<String>,
    pub url: Option<String>,
}

/// The mathematical value of a [`Bookmark`].
pub ghost struct BookmarkView {
    pub id: i32,
    pub title: Seq<char>,
    pub url: Seq<char>,
    pub created_at: time::OffsetDateTime,
    pub deleted_at: Option<time::OffsetDateTime>,
    pub updated_at: time::OffsetDateTime,
    pub folder_id: Option<i32>,
}

/// The mathematical value of a [`Folder`].
pub ghost struct FolderView {
    pub id: i32,
    pub path: Seq<char>,
    pub created_at: time::OffsetDateTime,
    pub updated_at: time::OffsetDateTime,
}

/// The mathematical value of a [`Tag`].
pub ghost struct TagView {
    pub id: i32,
    pub name: Seq<char>,
    pub created_at: time::OffsetDateTime,
    pub updated_at: time::OffsetDateTime,
}

impl View for Bookmark {
    type V = BookmarkView;

    open spec fn view(&self) -> BookmarkView {
        BookmarkView {
            id: self.id,
            title: self.title@,
            url: self.url@,
            created_at: self.created_at,
            deleted_at: self.deleted_at,
            updated_at: self.updated_at,
            folder_id: self.folder_id,
        }
    }
}

impl View for Folder {
    type V = FolderView;

    open spec fn view(&self) -> FolderView {
        FolderView {
            id: self.id,
            path: self.path@,
            created_at: self.created_at,
            updated_at: self.updated_at,
        }
    }
}

impl View for Tag {
    type V = TagView;

    open spec fn view(&self) -> TagView {
        TagView {
            id: self.id,
            name: self.name@,
            created_at: self.created_at,
            updated_at: self.updated_at,
        }
    }
}

impl Clone for Bookmark {
    fn clone(&self) -> (r: Self)
        ensures
            r@ == self@,
    {
        Bookmark {
            id: self.id,
            title: self.title.clone(),
            url: self.url.clone(),
            created_at: self.created_at,
            deleted_at: self.deleted_at,
            updated_at: self.updated_at,
            folder_id: self.folder_id,
        }
    }
}

impl Clone for Folder {
    fn clone(&self) -> (r: Self)
        ensures
            r@ == self@,
    {
        Folder {
            id: self.id,
            path: self.path.clone(),
            created_at: self.created_at,
            updated_at: self.updated_at,
        }
    }
}

impl Clone for Tag {
    fn clone(&self) -> (r: Self)
        ensures
            r@ == self@,
    {
        Tag {
            id: self.id,
            name: self.name.clone(),
            created_at: self.created_at,
            updated_at: self.updated_at,
        }
    }
}

/// The relations that a search reads.
#[derive(Debug)]
pub struct Store {
    pub bookmarks: Vec<Bookmark>,
    pub folders: Vec<Folder>,
    pub tags: Vec<Tag>,
    pub bookmarks_tags: Vec<BookmarkTag>,
}

/// The mathematical value of a [`Store`].
pub ghost struct StoreView {
    pub bookmarks: Seq<BookmarkView>,
    pub folders: Seq<FolderView>,
    pub tags: Seq<TagView>,
    pub bookmarks_tags: Seq<BookmarkTag>,
}

impl View for Store {
    type V = StoreView;

    open spec fn view(&self) -> StoreView {
        StoreView {
            bookmarks: Seq::new(self.bookmarks@.len(), |i: int| self.bookmarks@[i]@),
            folders: Seq::new(self.folders@.len(), |i: int| self.folders@[i]@),
            tags: Seq::new(self.tags@.len(), |i: int| self.tags@[i]@),
            bookmarks_tags: self.bookmarks_tags@,
        }
    }
}

} // verus!
