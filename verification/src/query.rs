//! The syntax tree of a search query.
use vstd::prelude::*;

verus! {

/// A parsed search query. A tree is built once and never changed; it owns
/// the text of its leaves.
#[derive(Debug, PartialEq, Eq)]
pub enum Query {
    /// Either operand matches (`a | b`).
    Or(Box<Query>, Box<Query>),
    /// Both operands match (`a b`).
    And(Box<Query>, Box<Query>),
    /// An operand written in parentheses.
    Parenthesized(Box<Query>),
    /// A folder path, as written.
    Path(String),
    /// A tag name, without the leading `#`.
    Tag(String),
    /// A keyword, without quotes.
    Keyword(String),
}

/// The mathematical value of a [`Query`]: the same tree over character
/// sequences.
pub ghost enum QueryView {
    Or(Box<QueryView>, Box<QueryView>),
    And(Box<QueryView>, Box<QueryView>),
    Parenthesized(Box<QueryView>),
    Path(Seq<char>),
    Tag(Seq<char>),
    Keyword(Seq<char>),
}

impl Query {
    /// The tree that this query stands for.
    pub open spec fn model(self) -> QueryView
        decreases self,
    {
        match self {
            Query::Or(a, b) => QueryView::Or(Box::new((*a).model()), Box::new((*b).model())),
            Query::And(a, b) => QueryView::And(Box::new((*a).model()), Box::new((*b).model())),
            Query::Parenthesized(a) => QueryView::Parenthesized(Box::new((*a).model())),
            Query::Path(p) => QueryView::Path(p@),
            Query::Tag(t) => QueryView::Tag(t@),
            Query::Keyword(k) => QueryView::Keyword(k@),
        }
    }
}

impl View for Query {
    type V = QueryView;

    open spec fn view(&self) -> QueryView {
        self.model()
    }
}

impl QueryView {
    /// Whether some leaf of the tree is a path.
    pub open spec fn has_path(self) -> bool
        decreases self,
    {
        match self {
            QueryView::Or(a, b) => (*a).has_path() || (*b).has_path(),
            QueryView::And(a, b) => (*a).has_path() || (*b).has_path(),
            QueryView::Parenthesized(a) => (*a).has_path(),
            QueryView::Path(_) => true,
            QueryView::Tag(_) => false,
            QueryView::Keyword(_) => false,
        }
    }
}

} // verus!
