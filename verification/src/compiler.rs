//! The compiler from a query tree to a filter over bookmarks.
use vstd::prelude::*;
use crate::errors::{empty_keyword, empty_tag, BearQLError, CommonError, CommonErrorView};
use crate::lexer::is_path;
use crate::path::{
    has_dot_segment, is_absolute, join_folder_path, joined_path, lemma_path_term_resolves,
    lemma_resolved_term, resolve_term, resolved, resolved_term, ResolvedPath, ResolvedPathView,
};
use crate::query::{Query, QueryView};
use crate::text::{
    is_blank, lemma_trimmed_blank, lemma_trimmed_core, to_chars, to_string, trim_bounds, trimmed,
};

verus! {

/// A filter over bookmarks: conditions on the folder, the tags and the text
/// of a bookmark, combined with `and` and `or`. It names folders and tags by
/// path and name, so one filter can be held against any store.
#[derive(Debug, PartialEq, Eq)]
pub enum Predicate {
    /// Either filter admits the bookmark.
    Or(Box<Predicate>, Box<Predicate>),
    /// Both filters admit the bookmark.
    And(Box<Predicate>, Box<Predicate>),
    /// The bookmark is where the path points.
    Path(ResolvedPath),
    /// The bookmark carries the tag of exactly this name.
    Tag(String),
    /// The title or the address of the bookmark holds this text, whatever
    /// the case of the letters.
    Keyword(String),
}

/// The mathematical value of a [`Predicate`].
pub ghost enum PredicateView {
    Or(Box<PredicateView>, Box<PredicateView>),
    And(Box<PredicateView>, Box<PredicateView>),
    Path(ResolvedPathView),
    Tag(Seq<char>),
    Keyword(Seq<char>),
}

impl Predicate {
    /// The filter that this value stands for.
    pub open spec fn model(self) -> PredicateView
        decreases self,
    {
        match self {
            Predicate::Or(a, b) => PredicateView::Or(
                Box::new((*a).model()),
                Box::new((*b).model()),
            ),
            Predicate::And(a, b) => PredicateView::And(
                Box::new((*a).model()),
                Box::new((*b).model()),
            ),
            Predicate::Path(p) => PredicateView::Path(p@),
            Predicate::Tag(t) => PredicateView::Tag(t@),
            Predicate::Keyword(k) => PredicateView::Keyword(k@),
        }
    }
}

impl View for Predicate {
    type V = PredicateView;

    open spec fn view(&self) -> PredicateView {
        self.model()
    }
}

/// `s` without one leading `#`, if it has one.
pub open spec fn without_hash(s: Seq<char>) -> Seq<char> {
    if s.len() > 0 && s[0] == '#' {
        s.skip(1)
    } else {
        s
    }
}

/// The name that a tag term asks for: the term trimmed, without a leading
/// `#` if one is still there, and trimmed again.
pub open spec fn tag_name(t: Seq<char>) -> Seq<char> {
    trimmed(without_hash(trimmed(t)))
}

/// The filter that the query `q`, asked from the folder `cwd`, compiles to,
/// or what the compilation fails on. Operands are compiled from left to
/// right and the first failure is the result.
pub open spec fn compiled(q: QueryView, cwd: Seq<char>) -> Result<PredicateView, CommonErrorView>
    decreases q,
{
    match q {
        QueryView::Or(a, b) => match compiled(*a, cwd) {
            Ok(x) => match compiled(*b, cwd) {
                Ok(y) => Ok(PredicateView::Or(Box::new(x), Box::new(y))),
                Err(f) => Err(f),
            },
            Err(f) => Err(f),
        },
        QueryView::And(a, b) => match compiled(*a, cwd) {
            Ok(x) => match compiled(*b, cwd) {
                Ok(y) => Ok(PredicateView::And(Box::new(x), Box::new(y))),
                Err(f) => Err(f),
            },
            Err(f) => Err(f),
        },
        QueryView::Parenthesized(a) => compiled(*a, cwd),
        QueryView::Path(p) => Ok(PredicateView::Path(resolved_term(joined_path(cwd, p)))),
        QueryView::Tag(t) => if tag_name(t).len() == 0 {
            Err(empty_tag())
        } else {
            Ok(PredicateView::Tag(tag_name(t)))
        },
        QueryView::Keyword(k) => if trimmed(k).len() == 0 {
            Err(empty_keyword())
        } else {
            Ok(PredicateView::Keyword(trimmed(k)))
        },
    }
}

/// Whether the compilation of `q` comes to a path term before it ends or
/// fails.
pub open spec fn reaches_path(q: QueryView, cwd: Seq<char>) -> bool
    decreases q,
{
    match q {
        QueryView::Or(a, b) => reaches_path(*a, cwd) || (compiled(*a, cwd) is Ok && reaches_path(
            *b,
            cwd,
        )),
        QueryView::And(a, b) => reaches_path(*a, cwd) || (compiled(*a, cwd) is Ok && reaches_path(
            *b,
            cwd,
        )),
        QueryView::Parenthesized(a) => reaches_path(*a, cwd),
        QueryView::Path(_) => true,
        QueryView::Tag(_) => false,
        QueryView::Keyword(_) => false,
    }
}

/// A compilation that succeeds has come to every term of the query: it has
/// met a path term exactly if the query holds one.
pub proof fn lemma_reaches_every_path(q: QueryView, cwd: Seq<char>)
    requires
        compiled(q, cwd) is Ok,
    ensures
        reaches_path(q, cwd) == q.has_path(),
    decreases q,
{
    match q {
        QueryView::Or(a, b) => {
            lemma_reaches_every_path(*a, cwd);
            lemma_reaches_every_path(*b, cwd);
        },
        QueryView::And(a, b) => {
            lemma_reaches_every_path(*a, cwd);
            lemma_reaches_every_path(*b, cwd);
        },
        QueryView::Parenthesized(a) => {
            lemma_reaches_every_path(*a, cwd);
        },
        _ => {},
    }
}

/// A tag term that holds nothing but white space has no name: its
/// compilation fails with an empty tag.
pub proof fn lemma_blank_tag_is_empty(t: Seq<char>, cwd: Seq<char>)
    requires
        is_blank(t),
    ensures
        compiled(QueryView::Tag(t), cwd) == Err::<PredicateView, CommonErrorView>(empty_tag()),
{
    lemma_trimmed_blank(t);
    lemma_trimmed_blank(Seq::<char>::empty());
}

/// A tag term that holds a `#` and nothing but white space around it has
/// no name either.
pub proof fn lemma_hash_alone_is_empty(before: Seq<char>, after: Seq<char>, cwd: Seq<char>)
    requires
        is_blank(before),
        is_blank(after),
    ensures
        compiled(QueryView::Tag(before + seq!['#'] + after), cwd) == Err::<
            PredicateView,
            CommonErrorView,
        >(empty_tag()),
{
    lemma_trimmed_core(before, seq!['#'], after);
    assert(without_hash(seq!['#']) =~= Seq::<char>::empty());
    lemma_trimmed_blank(Seq::<char>::empty());
}

/// The failure of the leftmost term without a name or text: of a tag
/// whose name is empty, or of a keyword whose trimmed text is empty.
pub open spec fn first_empty_term(q: QueryView) -> Option<CommonErrorView>
    decreases q,
{
    match q {
        QueryView::Or(a, b) => match first_empty_term(*a) {
            Some(e) => Some(e),
            None => first_empty_term(*b),
        },
        QueryView::And(a, b) => match first_empty_term(*a) {
            Some(e) => Some(e),
            None => first_empty_term(*b),
        },
        QueryView::Parenthesized(a) => first_empty_term(*a),
        QueryView::Path(_) => None,
        QueryView::Tag(t) => if tag_name(t).len() == 0 {
            Some(empty_tag())
        } else {
            None
        },
        QueryView::Keyword(k) => if trimmed(k).len() == 0 {
            Some(empty_keyword())
        } else {
            None
        },
    }
}

/// A term without a name or text is an empty tag or an empty keyword.
pub proof fn lemma_first_empty_term(q: QueryView)
    ensures
        first_empty_term(q) matches Some(e) ==> e == empty_tag() || e == empty_keyword(),
    decreases q,
{
    match q {
        QueryView::Or(a, b) => {
            lemma_first_empty_term(*a);
            lemma_first_empty_term(*b);
        },
        QueryView::And(a, b) => {
            lemma_first_empty_term(*a);
            lemma_first_empty_term(*b);
        },
        QueryView::Parenthesized(a) => {
            lemma_first_empty_term(*a);
        },
        _ => {},
    }
}

/// A query fails to compile on an empty tag or an empty keyword and on
/// nothing else: where a term, at whatever depth and whatever stands beside
/// it, has no name or text, the leftmost such term is the failure, and
/// where none has, the query compiles.
pub proof fn lemma_compile_fails_on_empty_terms_alone(q: QueryView, cwd: Seq<char>)
    ensures
        match first_empty_term(q) {
            Some(e) => compiled(q, cwd) == Err::<PredicateView, CommonErrorView>(e),
            None => compiled(q, cwd) is Ok,
        },
    decreases q,
{
    match q {
        QueryView::Or(a, b) => {
            lemma_compile_fails_on_empty_terms_alone(*a, cwd);
            lemma_compile_fails_on_empty_terms_alone(*b, cwd);
        },
        QueryView::And(a, b) => {
            lemma_compile_fails_on_empty_terms_alone(*a, cwd);
            lemma_compile_fails_on_empty_terms_alone(*b, cwd);
        },
        QueryView::Parenthesized(a) => {
            lemma_compile_fails_on_empty_terms_alone(*a, cwd);
        },
        _ => {},
    }
}

/// A path term of the grammar, asked from a folder, selects what its joined
/// path resolves to: the root, the bookmarks without a folder, or a folder.
/// The folder it is asked from is absolute and free of `.` segments, as the
/// paths of folders are; the path terms of every query that was read are
/// paths of the grammar.
pub proof fn lemma_path_term_compiles(p: Seq<char>, cwd: Seq<char>)
    requires
        is_absolute(cwd),
        !has_dot_segment(cwd),
        is_path(p),
    ensures
        resolved(joined_path(cwd, p)) matches Some(found) && compiled(QueryView::Path(p), cwd)
            == Ok::<PredicateView, CommonErrorView>(PredicateView::Path(found)),
{
    lemma_path_term_resolves(cwd, p);
    lemma_resolved_term(joined_path(cwd, p));
}

/// The tag name that the term `t` asks for.
pub fn tag_name_of(t: &str) -> (name: String)
    ensures
        name@ == tag_name(t@),
{
    let v = to_chars(t);
    let (a, z) = trim_bounds(&v, 0, v.len());
    let from: usize = if a < z && v[a] == '#' {
        a + 1
    } else {
        a
    };
    let (b, y) = trim_bounds(&v, from, z);
    proof {
        assert(v@.subrange(0, v.len() as int) == v@);
        let once = v@.subrange(a as int, z as int);
        assert(without_hash(once) == v@.subrange(from as int, z as int));
    }
    to_string(&v, b, y)
}

/// `s` without leading and trailing white space.
pub fn trim(s: &str) -> (out: String)
    ensures
        out@ == trimmed(s@),
{
    let v = to_chars(s);
    let (a, z) = trim_bounds(&v, 0, v.len());
    proof {
        assert(v@.subrange(0, v.len() as int) == v@);
    }
    to_string(&v, a, z)
}

/// Compiles `query`, asked from the folder `cwd`, to a filter.
///
/// A path term is joined to `cwd` and resolved; a tag term asks for its
/// name; a keyword term asks for its trimmed text. A tag without a name and
/// a keyword without text are rejected, the leftmost first, and nothing
/// else is. `cwd_overwrited` is set as soon as a path term is met,
/// and is never cleared.
pub fn find_bookmarks(query: &Query, cwd: &str, cwd_overwrited: &mut bool) -> (r: Result<
    Predicate,
    CommonError,
>)
    ensures
        match compiled(query@, cwd@) {
            Ok(p) => r matches Ok(found) && found@ == p,
            Err(f) => r matches Err(e) && e@ == f,
        },
        match first_empty_term(query@) {
            Some(f) => r matches Err(e) && e@ == f,
            None => r is Ok,
        },
        *final(cwd_overwrited) == (*old(cwd_overwrited) || reaches_path(query@, cwd@)),
    decreases query,
{
    proof {
        lemma_compile_fails_on_empty_terms_alone(query@, cwd@);
    }
    match query {
        Query::Or(a, b) => {
            let x = match find_bookmarks(a, cwd, cwd_overwrited) {
                Ok(x) => x,
                Err(e) => {
                    return Err(e);
                },
            };
            let y = match find_bookmarks(b, cwd, cwd_overwrited) {
                Ok(y) => y,
                Err(e) => {
                    return Err(e);
                },
            };
            Ok(Predicate::Or(Box::new(x), Box::new(y)))
        },
        Query::And(a, b) => {
            let x = match find_bookmarks(a, cwd, cwd_overwrited) {
                Ok(x) => x,
                Err(e) => {
                    return Err(e);
                },
            };
            let y = match find_bookmarks(b, cwd, cwd_overwrited) {
                Ok(y) => y,
                Err(e) => {
                    return Err(e);
                },
            };
            Ok(Predicate::And(Box::new(x), Box::new(y)))
        },
        Query::Parenthesized(a) => find_bookmarks(a, cwd, cwd_overwrited),
        Query::Path(p) => {
            let path = join_folder_path(cwd, p.as_str());
            *cwd_overwrited = true;
            Ok(Predicate::Path(resolve_term(path.as_str())))
        },
        Query::Tag(t) => {
            let name = tag_name_of(t.as_str());
            if name.as_str().is_empty() {
                return Err(CommonError::BearQL(BearQLError::EmptyTag));
            }
            Ok(Predicate::Tag(name))
        },
        Query::Keyword(k) => {
            let text = trim(k.as_str());
            if text.as_str().is_empty() {
                return Err(CommonError::BearQL(BearQLError::EmptyKeyword));
            }
            Ok(Predicate::Keyword(text))
        },
    }
}

} // verus!
