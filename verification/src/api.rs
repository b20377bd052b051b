//! What the HTTP interface decides without the database: who may call it,
//! and how the failures of the library are answered.
use vstd::prelude::*;
use vstd::string::StringExecFns;
use crate::errors::{BearQLError, CommonError, DatabaseError};
use crate::store::{Folder, Tag};
use crate::text::{same, texts, to_chars};

verus! {

/// The settings of the server.
#[derive(Debug, Default, PartialEq, Eq)]
pub struct Config {
    /// Where the files of the user interface lie, if they are served.
    pub ui_path: Option<String>,
    /// The key that every request has to show, if one is asked for.
    pub api_key: Option<String>,
}

/// The failures that the interface answers with.
#[derive(Debug, PartialEq, Eq)]
pub enum Error {
    NotFound(String),
    BadRequest(String),
    InternalServer(String),
    MissingAPIKey(String),
    InvalidAPIKey(String),
}

/// The mathematical value of an [`Error`].
pub ghost enum ErrorView {
    NotFound(Seq<char>),
    BadRequest(Seq<char>),
    InternalServer(Seq<char>),
    MissingAPIKey(Seq<char>),
    InvalidAPIKey(Seq<char>),
}

impl View for Error {
    type V = ErrorView;

    open spec fn view(&self) -> ErrorView {
        match self {
            Error::NotFound(m) => ErrorView::NotFound(m@),
            Error::BadRequest(m) => ErrorView::BadRequest(m@),
            Error::InternalServer(m) => ErrorView::InternalServer(m@),
            Error::MissingAPIKey(m) => ErrorView::MissingAPIKey(m@),
            Error::InvalidAPIKey(m) => ErrorView::InvalidAPIKey(m@),
        }
    }
}

impl ErrorView {
    /// The HTTP status that the failure is answered with.
    pub open spec fn status(self) -> u16 {
        match self {
            ErrorView::NotFound(_) => 404,
            ErrorView::BadRequest(_) => 400,
            ErrorView::InternalServer(_) => 500,
            ErrorView::MissingAPIKey(_) => 401,
            ErrorView::InvalidAPIKey(_) => 403,
        }
    }
}

impl Error {
    /// The HTTP status that the failure is answered with.
    pub fn status(&self) -> (code: u16)
        ensures
            code == self@.status(),
    {
        match self {
            Error::NotFound(_) => 404,
            Error::BadRequest(_) => 400,
            Error::InternalServer(_) => 500,
            Error::MissingAPIKey(_) => 401,
            Error::InvalidAPIKey(_) => 403,
        }
    }

    /// A failure of the database is a bad request that carries its message.
    pub fn from_database(e: DatabaseError) -> (r: Self)
        ensures
            r@ == ErrorView::BadRequest(e.message()),
    {
        Error::BadRequest(e.to_string())
    }

    /// A failure of a query is a bad request. A syntax error is answered
    /// with `Syntax Error: ` and its message, the others with their own.
    pub fn from_query(e: BearQLError) -> (r: Self)
        ensures
            r@ == ErrorView::BadRequest(
                match e {
                    BearQLError::SyntaxError { msg, .. } => "Syntax Error: "@ + msg@,
                    BearQLError::EmptyKeyword => "Empty keyword error"@,
                    BearQLError::EmptyTag => "Empty tag name error"@,
                },
            ),
    {
        match e {
            BearQLError::SyntaxError { msg, ql: _, err_msg: _ } => {
                let mut text = "Syntax Error: ".to_owned();
                text.append(msg.as_str());
                Error::BadRequest(text)
            },
            BearQLError::EmptyKeyword => Error::BadRequest("Empty keyword error".to_owned()),
            BearQLError::EmptyTag => Error::BadRequest("Empty tag name error".to_owned()),
        }
    }

    /// A failure of a search is a bad request.
    pub fn from_search(e: CommonError) -> (r: Self)
        ensures
            r@ == ErrorView::BadRequest(
                match e {
                    CommonError::InvalidCWD => "Invalid CWD"@,
                    CommonError::BearQL(BearQLError::SyntaxError { msg, .. }) => "Syntax Error: "@
                        + msg@,
                    CommonError::BearQL(BearQLError::EmptyKeyword) => "Empty keyword error"@,
                    CommonError::BearQL(BearQLError::EmptyTag) => "Empty tag name error"@,
                },
            ),
    {
        match e {
            CommonError::InvalidCWD => Error::BadRequest("Invalid CWD".to_owned()),
            CommonError::BearQL(e) => Error::from_query(e),
        }
    }
}

/// The proof that a request may go on.
#[derive(Debug, PartialEq, Eq)]
pub struct Auth;

/// What the guard decides for a request, from the settings of the server,
/// if it has any, and the `Authorization` header of the request, if it has
/// one.
pub open spec fn guarded(config: Option<Config>, token: Option<Seq<char>>) -> Result<(), ErrorView> {
    match config {
        None => Err(ErrorView::InternalServer("Missing Config"@)),
        Some(c) => match c.api_key {
            None => Ok(()),
            Some(key) => match token {
                None => Err(ErrorView::MissingAPIKey("Missing API Key"@)),
                Some(t) => if t == key@ {
                    Ok(())
                } else {
                    Err(ErrorView::InvalidAPIKey("Invalid API Key"@))
                },
            },
        },
    }
}

impl Auth {
    /// Decides whether a request may go on. Without settings the server
    /// cannot tell (status 500). Where the settings ask for no key, every
    /// request may. Where they ask for one, a request without the header is
    /// turned away (status 401), and so is one with another key (status
    /// 403).
    pub fn from_request(config: Option<&Config>, token: Option<&str>) -> (r: Result<
        Auth,
        (u16, Error),
    >)
        ensures
            match guarded(
                match config {
                    Some(c) => Some(*c),
                    None => None,
                },
                match token {
                    Some(t) => Some(t@),
                    None => None,
                },
            ) {
                Ok(_) => r is Ok,
                Err(e) => r matches Err(failed) && failed.1@ == e && failed.0 == e.status(),
            },
    {
        let config = match config {
            Some(c) => c,
            None => {
                return Err((500, Error::InternalServer("Missing Config".to_owned())));
            },
        };
        let key = match &config.api_key {
            Some(key) => key,
            None => {
                return Ok(Auth);
            },
        };
        match token {
            Some(t) => {
                if same(&to_chars(t), &to_chars(key.as_str())) {
                    Ok(Auth)
                } else {
                    Err((403, Error::InvalidAPIKey("Invalid API Key".to_owned())))
                }
            },
            None => Err((401, Error::MissingAPIKey("Missing API Key".to_owned()))),
        }
    }
}

/// A bookmark as the interface shows it: with the path of its folder and
/// the names of its tags.
#[derive(Debug, PartialEq, Eq)]
pub struct Bookmark {
    pub id: i32,
    pub title: String,
    pub url: String,
    pub folder: Option<String>,
    pub tags: Vec<String>,
    pub created_at: time::OffsetDateTime,
    pub deleted_at: Option<time::OffsetDateTime>,
    pub updated_at: time::OffsetDateTime,
}

/// The changes that a request asks for: to the bookmark itself and to its
/// tags.
#[derive(Debug, PartialEq, Eq)]
pub struct ModifyBookmark {
    pub title: Option<String>,
    pub url: Option<String>,
    pub tags: Option<Vec<String>>,
}

/// The names of the tags, in their order.
pub open spec fn names_of(tags: Seq<Tag>) -> Seq<Seq<char>> {
    Seq::new(tags.len(), |i: int| tags[i].name@)
}

impl Bookmark {
    /// Shows a bookmark with its details: the folder by its path, the tags
    /// by their names, in their order.
    pub fn from_details(row: (crate::store::Bookmark, Option<Folder>, Vec<Tag>)) -> (shown: Self)
        ensures
            shown.id == row.0.id,
            shown.title@ == row.0.title@,
            shown.url@ == row.0.url@,
            shown.created_at == row.0.created_at,
            shown.deleted_at == row.0.deleted_at,
            shown.updated_at == row.0.updated_at,
            match row.1 {
                Some(f) => shown.folder matches Some(path) && path@ == f.path@,
                None => shown.folder is None,
            },
            texts(shown.tags@) == names_of(row.2@),
    {
        let (m, folder, tags) = row;
        let mut names: Vec<String> = Vec::new();
        let mut k: usize = 0;
        while k < tags.len()
            invariant
                k <= tags.len(),
                names.len() == k,
                forall|i: int| 0 <= i < k ==> (#[trigger] names[i])@ == tags[i].name@,
            decreases tags.len() - k,
        {
            names.push(tags[k].name.clone());
            k += 1;
        }
        proof {
            assert(texts(names@) =~= names_of(tags@));
        }
        Bookmark {
            id: m.id,
            title: m.title,
            url: m.url,
            folder: match folder {
                Some(f) => Some(f.path),
                None => None,
            },
            tags: names,
            created_at: m.created_at,
            updated_at: m.updated_at,
            deleted_at: m.deleted_at,
        }
    }
}

/// Parts the changes that a request asks for into those to the bookmark
/// itself, where the title or the address changes, and those to its tags.
/// A request that changes nothing is a bad request.
pub fn split_changes(payload: ModifyBookmark) -> (r: Result<
    (Option<crate::store::ModifyBookmark>, Option<Vec<String>>),
    Error,
>)
    ensures
        match r {
            Ok((row, tags)) => {
                &&& !(payload.title is None && payload.url is None && payload.tags is None)
                &&& tags == payload.tags
                &&& match row {
                    Some(m) => m.title == payload.title && m.url == payload.url && !(payload.title is None
                        && payload.url is None),
                    None => payload.title is None && payload.url is None,
                }
            },
            Err(e) => payload.title is None && payload.url is None && payload.tags is None && e@
                == ErrorView::BadRequest("No changes"@),
        },
{
    let row = if payload.title.is_some() || payload.url.is_some() {
        Some(crate::store::ModifyBookmark { title: payload.title, url: payload.url })
    } else {
        None
    };
    if row.is_none() && payload.tags.is_none() {
        return Err(Error::BadRequest("No changes".to_owned()));
    }
    Ok((row, payload.tags))
}

/// The answer to a request to delete a bookmark, from the number of rows
/// that the store marked: `Deleted` where it marked exactly one, else the
/// bookmark is not found.
pub fn deletion_outcome(effected: usize) -> (r: Result<&'static str, Error>)
    ensures
        match r {
            Ok(text) => effected == 1 && text@ == "Deleted"@,
            Err(e) => effected != 1 && e@ == ErrorView::NotFound("Bookmark not found"@),
        },
{
    if effected == 1 {
        Ok("Deleted")
    } else {
        Err(Error::NotFound("Bookmark not found".to_owned()))
    }
}

/// Decides whether the bookmark can be moved into the folder `folder_id`:
/// it has to be there, and not in that folder already.
pub fn check_move_in(bookmark: Option<&crate::store::Bookmark>, folder_id: i32) -> (r: Result<
    (),
    Error,
>)
    ensures
        match bookmark {
            None => r matches Err(e) && e@ == ErrorView::NotFound("Bookmark not found"@),
            Some(b) => if b.folder_id == Some(folder_id) {
                r matches Err(e) && e@ == ErrorView::BadRequest(
                    "Bookmark is already in this folder"@,
                )
            } else {
                r is Ok
            },
        },
{
    let b = match bookmark {
        Some(b) => b,
        None => {
            return Err(Error::NotFound("Bookmark not found".to_owned()));
        },
    };
    match b.folder_id {
        Some(current) => {
            if current == folder_id {
                return Err(Error::BadRequest("Bookmark is already in this folder".to_owned()));
            }
            Ok(())
        },
        None => Ok(()),
    }
}

/// Decides whether the bookmark can be moved out of its folder, and gives
/// the folder: the bookmark has to be there, and in a folder.
pub fn check_move_out(bookmark: Option<&crate::store::Bookmark>) -> (r: Result<i32, Error>)
    ensures
        match bookmark {
            None => r matches Err(e) && e@ == ErrorView::NotFound("Bookmark not found"@),
            Some(b) => match b.folder_id {
                Some(id) => r == Ok::<i32, Error>(id),
                None => r matches Err(e) && e@ == ErrorView::BadRequest(
                    "Bookmark is not in a folder"@,
                ),
            },
        },
{
    let b = match bookmark {
        Some(b) => b,
        None => {
            return Err(Error::NotFound("Bookmark not found".to_owned()));
        },
    };
    match b.folder_id {
        Some(id) => Ok(id),
        None => Err(Error::BadRequest("Bookmark is not in a folder".to_owned())),
    }
}

/// The failure that says that `what` is not there.
pub fn not_found(what: &str) -> (e: Error)
    ensures
        e@ == ErrorView::NotFound(what@ + " not found"@),
{
    let mut text = what.to_owned();
    text.append(" not found");
    Error::NotFound(text)
}

/// The answer to a request to delete a tag, from the number of rows that
/// the store deleted: `Deleted` where it deleted exactly one, else the tag
/// is not found.
pub fn tag_deletion_outcome(effected: usize) -> (r: Result<&'static str, Error>)
    ensures
        match r {
            Ok(text) => effected == 1 && text@ == "Deleted"@,
            Err(e) => effected != 1 && e@ == ErrorView::NotFound("Tag not found"@),
        },
{
    if effected == 1 {
        Ok("Deleted")
    } else {
        Err(Error::NotFound("Tag not found".to_owned()))
    }
}

/// Decides whether a request changes a tag: one that sets no name is a bad
/// request.
pub fn check_tag_changes(name: &Option<String>) -> (r: Result<(), Error>)
    ensures
        match r {
            Ok(_) => name is Some,
            Err(e) => name is None && e@ == ErrorView::BadRequest("No changes"@),
        },
{
    if name.is_none() {
        return Err(Error::BadRequest("No changes".to_owned()));
    }
    Ok(())
}

} // verus!
