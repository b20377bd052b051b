//! The errors of the library.
use vstd::prelude::*;
use vstd::string::StringExecFns;

verus! {

/// A failure reported by the database.
#[derive(Debug, PartialEq, Eq)]
pub enum DatabaseError {
    /// A unique constraint of `table` was violated.
    DuplicationError { table: String },
    /// A foreign key constraint was violated.
    ViolationError(),
}

/// A failure to read or to compile a search query.
#[derive(Debug, PartialEq, Eq)]
pub enum BearQLError {
    /// The text `ql` is no query; `err_msg` says at which stage it failed.
    SyntaxError { msg: String, ql: String, err_msg: String },
    /// A tag term has no name.
    EmptyTag,
    /// A keyword term has no text.
    EmptyKeyword,
}

/// A failure of a search.
#[derive(Debug, PartialEq, Eq)]
pub enum CommonError {
    /// The folder that the search starts from is no path.
    InvalidCWD,
    /// The query could not be read or compiled.
    BearQL(BearQLError),
}

/// The mathematical value of a [`BearQLError`].
pub ghost enum BearQLErrorView {
    SyntaxError { msg: Seq<char>, ql: Seq<char>, err_msg: Seq<char> },
    EmptyTag,
    EmptyKeyword,
}

/// The mathematical value of a [`CommonError`].
pub ghost enum CommonErrorView {
    InvalidCWD,
    BearQL(BearQLErrorView),
}

impl View for BearQLError {
    type V = BearQLErrorView;

    open spec fn view(&self) -> BearQLErrorView {
        match self {
            BearQLError::SyntaxError { msg, ql, err_msg } => BearQLErrorView::SyntaxError {
                msg: msg@,
                ql: ql@,
                err_msg: err_msg@,
            },
            BearQLError::EmptyTag => BearQLErrorView::EmptyTag,
            BearQLError::EmptyKeyword => BearQLErrorView::EmptyKeyword,
        }
    }
}

impl View for CommonError {
    type V = CommonErrorView;

    open spec fn view(&self) -> CommonErrorView {
        match self {
            CommonError::InvalidCWD => CommonErrorView::InvalidCWD,
            CommonError::BearQL(e) => CommonErrorView::BearQL(e@),
        }
    }
}

/// The failure of a tag term without a name.
pub open spec fn empty_tag() -> CommonErrorView {
    CommonErrorView::BearQL(BearQLErrorView::EmptyTag)
}

/// The failure of a keyword term without text.
pub open spec fn empty_keyword() -> CommonErrorView {
    CommonErrorView::BearQL(BearQLErrorView::EmptyKeyword)
}

/// The text in the form that `Debug` gives a string: in double quotes, with
/// the characters that need it escaped.
pub uninterp spec fn debug_form(s: Seq<char>) -> Seq<char>;

/// `format!("{:?}", s)`: the `Debug` form of a string, which depends on its
/// characters alone.
#[verifier::external_body]
fn debug_text(s: &str) -> (r: String)
    ensures
        r@ == debug_form(s@),
{
    format!("{:?}", s)
}

/// The message of a duplicate key in the table whose name, in its `Debug`
/// form, is `quoted`.
pub fn duplication_message(quoted: &str) -> (r: String)
    ensures
        r@ == "duplicate key value violates unique constraint of "@ + quoted@,
{
    let mut r = "duplicate key value violates unique constraint of ".to_owned();
    r.append(quoted);
    r
}

impl DatabaseError {
    /// The message of this error.
    pub open spec fn message(self) -> Seq<char> {
        match self {
            DatabaseError::DuplicationError { table } =>
                "duplicate key value violates unique constraint of "@ + debug_form(table@),
            DatabaseError::ViolationError() => "foreign key constraint violation"@,
        }
    }

    /// The message of this error.
    pub fn to_string(&self) -> (r: String)
        ensures
            r@ == self.message(),
    {
        match self {
            DatabaseError::DuplicationError { table } => {
                let quoted = debug_text(table.as_str());
                duplication_message(quoted.as_str())
            },
            DatabaseError::ViolationError() => "foreign key constraint violation".to_owned(),
        }
    }
}

impl BearQLError {
    /// The message of this error.
    pub open spec fn message(self) -> Seq<char> {
        match self {
            BearQLError::SyntaxError { msg, .. } => "Syntax error: "@ + msg@,
            BearQLError::EmptyTag => "Empty tag name error"@,
            BearQLError::EmptyKeyword => "Empty keyword error"@,
        }
    }

    /// The message of this error.
    pub fn to_string(&self) -> (r: String)
        ensures
            r@ == self.message(),
    {
        match self {
            BearQLError::SyntaxError { msg, .. } => {
                let mut r = "Syntax error: ".to_owned();
                r.append(msg.as_str());
                r
            },
            BearQLError::EmptyTag => "Empty tag name error".to_owned(),
            BearQLError::EmptyKeyword => "Empty keyword error".to_owned(),
        }
    }
}

impl CommonError {
    /// The message of this error: that of the query error where it wraps
    /// one.
    pub open spec fn message(self) -> Seq<char> {
        match self {
            CommonError::InvalidCWD => "Invalid CWD"@,
            CommonError::BearQL(e) => e.message(),
        }
    }

    /// The message of this error.
    pub fn to_string(&self) -> (r: String)
        ensures
            r@ == self.message(),
    {
        match self {
            CommonError::InvalidCWD => "Invalid CWD".to_owned(),
            CommonError::BearQL(e) => e.to_string(),
        }
    }
}

} // verus!
