//! Search: from a query text and a folder to a plan, and from a plan and a
//! store to a page of bookmarks.
//!
//! A page holds the admitted bookmarks with the largest ids, one row for
//! each id, largest id first. The cursor `before` asks for ids below it, so
//! the last id of one page is the cursor of the next.
use vstd::prelude::*;
use crate::compiler::{
    compiled, find_bookmarks, lemma_blank_tag_is_empty, lemma_compile_fails_on_empty_terms_alone,
    lemma_first_empty_term, lemma_reaches_every_path, Predicate, PredicateView,
};
use crate::details::{bookmarks_of, details_found, get_bookmark_details};
use crate::errors::{empty_keyword, empty_tag, BearQLError, CommonError, CommonErrorView};
use crate::lexer::{lexeme_at, lexemes, lexemes_from, Lexeme};
use crate::matching::{holds, path_admits, path_fits};
use crate::parser::{
    and_from, diagnostic, or_from, parse_query, primitive_at, query_of, syntax_error,
};
use crate::path::{resolve_path, resolved, ResolvedPath, ResolvedPathView};
use crate::query::QueryView;
use crate::store::{Bookmark, BookmarkView, Folder, Store, StoreView, Tag};
use crate::text::{is_blank, leading, lemma_leading_is, CharClass};

verus! {

/// What a search asks of the store.
#[derive(Debug, PartialEq, Eq)]
pub struct SearchPlan {
    /// The filter that the query compiled to, if there was a query.
    pub query: Option<Predicate>,
    /// The folder that the search is held to, where the query names none.
    pub scope: Option<ResolvedPath>,
    /// The cursor: where it is positive, only smaller ids are admitted.
    pub before: i32,
    /// The most rows that a page holds.
    pub limit: i64,
}

/// The mathematical value of a [`SearchPlan`].
pub ghost struct SearchPlanView {
    pub query: Option<PredicateView>,
    pub scope: Option<ResolvedPathView>,
    pub before: i32,
    pub limit: i64,
}

impl View for SearchPlan {
    type V = SearchPlanView;

    open spec fn view(&self) -> SearchPlanView {
        SearchPlanView {
            query: match self.query {
                Some(p) => Some(p@),
                None => None,
            },
            scope: match self.scope {
                Some(s) => Some(s@),
                None => None,
            },
            before: self.before,
            limit: self.limit,
        }
    }
}

/// The folder that a search from `cwd` is held to when the query names no
/// path: none without a `cwd` or from the root, else what `cwd` itself
/// resolves to.
pub open spec fn default_scope(cwd: Option<Seq<char>>) -> Result<
    Option<ResolvedPathView>,
    CommonErrorView,
> {
    match cwd {
        None => Ok(None),
        Some(c) => match resolved(c) {
            Some(ResolvedPathView::Root) => Ok(None),
            Some(found) => Ok(Some(found)),
            None => Err(CommonErrorView::InvalidCWD),
        },
    }
}

/// The folder that relative paths of a query start from.
pub open spec fn base_folder(cwd: Option<Seq<char>>) -> Seq<char> {
    match cwd {
        Some(c) => c,
        None => seq!['/'],
    }
}

/// The filter of a search: what the query compiles to, if there is one.
pub open spec fn planned_query(query: Option<Seq<char>>, cwd: Option<Seq<char>>) -> Result<
    Option<(PredicateView, bool)>,
    CommonErrorView,
> {
    match query {
        None => Ok(None),
        Some(text) => match query_of(text) {
            None => Err(CommonErrorView::BearQL(syntax_error(text))),
            Some(tree) => match compiled(tree, base_folder(cwd)) {
                Ok(p) => Ok(Some((p, tree.has_path()))),
                Err(f) => Err(f),
            },
        },
    }
}

/// The plan of a search, or what it fails on. The query is read, then
/// compiled; only where it is absent or names no path is the search held
/// to `cwd`.
pub open spec fn planned(
    query: Option<Seq<char>>,
    cwd: Option<Seq<char>>,
    before: i32,
    limit: i64,
) -> Result<SearchPlanView, CommonErrorView> {
    match planned_query(query, cwd) {
        Err(f) => Err(f),
        Ok(Some((p, true))) => Ok(SearchPlanView { query: Some(p), scope: None, before, limit }),
        Ok(Some((p, false))) => match default_scope(cwd) {
            Ok(scope) => Ok(SearchPlanView { query: Some(p), scope, before, limit }),
            Err(f) => Err(f),
        },
        Ok(None) => match default_scope(cwd) {
            Ok(scope) => Ok(SearchPlanView { query: None, scope, before, limit }),
            Err(f) => Err(f),
        },
    }
}

/// Whether the plan admits the bookmark `b` of `store`: it is not deleted,
/// the filter and the folder of the plan admit it, and its id lies below
/// the cursor.
pub open spec fn plan_admits(plan: SearchPlanView, store: StoreView, b: BookmarkView) -> bool {
    &&& b.deleted_at is None
    &&& plan.query matches Some(p) ==> holds(p, store, b)
    &&& plan.scope matches Some(s) ==> path_admits(s, store, b)
    &&& plan.before > 0 ==> b.id < plan.before
}

/// Whether the bookmark `k` of the store is admitted, and the first of the
/// admitted bookmarks with its id.
pub open spec fn is_first_admitted(plan: SearchPlanView, store: StoreView, k: int) -> bool {
    &&& 0 <= k < store.bookmarks.len()
    &&& plan_admits(plan, store, store.bookmarks[k])
    &&& forall|j: int|
        0 <= j < k ==> !(plan_admits(plan, store, #[trigger] store.bookmarks[j])
            && store.bookmarks[j].id == store.bookmarks[k].id)
}

/// Whether `row` is the row that stands for its id on a page: the first
/// admitted bookmark of the store with that id.
pub open spec fn is_row_of(row: BookmarkView, store: StoreView, plan: SearchPlanView) -> bool {
    exists|k: int| is_first_admitted(plan, store, k) && store.bookmarks[k] == row
}

/// Whether `rows` is the page that `plan` asks of `store`.
pub open spec fn is_page(rows: Seq<BookmarkView>, store: StoreView, plan: SearchPlanView) -> bool {
    // every row is an admitted bookmark of the store, of those with its id
    // the first
    &&& forall|i: int| 0 <= i < rows.len() ==> is_row_of(#[trigger] rows[i], store, plan)
    // largest id first, no id twice
    &&& forall|i: int, j: int|
        0 <= i < j < rows.len() ==> (#[trigger] rows[i]).id > (#[trigger] rows[j]).id
    // no more rows than asked for
    &&& rows.len() <= plan.limit
    // no admitted bookmark is passed over: its id is on the page, or the
    // page is full and ends above it
    &&& forall|k: int|
        0 <= k < store.bookmarks.len() && plan_admits(plan, store, #[trigger] store.bookmarks[k])
            ==> has_id(rows, store.bookmarks[k].id) || (rows.len() == plan.limit && (rows.len() == 0
            || store.bookmarks[k].id < rows.last().id))
}

/// Whether some row has the id.
pub open spec fn has_id(rows: Seq<BookmarkView>, id: i32) -> bool {
    exists|i: int| 0 <= i < rows.len() && (#[trigger] rows[i]).id == id
}

/// The values of a sequence of bookmarks.
pub open spec fn bookmark_views(rows: Seq<Bookmark>) -> Seq<BookmarkView> {
    Seq::new(rows.len(), |i: int| rows[i]@)
}

/// Resolves the folder that a search without a path of its own is held to.
pub fn scope_of(cwd: Option<&str>) -> (r: Result<Option<ResolvedPath>, CommonError>)
    ensures
        match default_scope(
            match cwd {
                Some(c) => Some(c@),
                None => None,
            },
        ) {
            Ok(Some(s)) => r matches Ok(Some(found)) && found@ == s,
            Ok(None) => r matches Ok(None),
            Err(f) => r matches Err(e) && e@ == f && f == CommonErrorView::InvalidCWD,
        },
{
    match cwd {
        None => Ok(None),
        Some(c) => match resolve_path(c) {
            Ok(ResolvedPath::Root) => Ok(None),
            Ok(found) => Ok(Some(found)),
            Err(e) => Err(e),
        },
    }
}

/// The view of an optional text.
pub open spec fn text_of(s: Option<&str>) -> Option<Seq<char>> {
    match s {
        Some(t) => Some(t@),
        None => None,
    }
}

/// Plans a search: reads and compiles the query, and decides which folder
/// the search is held to.
///
/// A text that is no query is a syntax error that carries the text. Then
/// come the failures of the compilation, then a `cwd` that is no path, but
/// only where the query names no path itself.
pub fn plan_search(query: Option<&str>, cwd: Option<&str>, before: i32, limit: i64) -> (r: Result<
    SearchPlan,
    CommonError,
>)
    ensures
        match planned(text_of(query), text_of(cwd), before, limit) {
            Ok(plan) => r matches Ok(found) && found@ == plan,
            Err(f) => r matches Err(e) && e@ == f,
        },
        match query {
            Some(text) => query_of(text@) is None ==> (r matches Err(
                CommonError::BearQL(BearQLError::SyntaxError { msg, ql, err_msg }),
            ) && msg@ == "failed to parse query"@ && ql@ == text@ && err_msg@ == diagnostic(
                text@,
            )),
            None => true,
        },
{
    let mut cwd_overwrited = false;
    let compiled_query = match query {
        Some(text) => {
            let tree = match parse_query(text) {
                Ok(tree) => tree,
                Err(e) => {
                    return Err(CommonError::BearQL(e));
                },
            };
            let base = match cwd {
                Some(c) => c,
                None => "/",
            };
            proof {
                reveal_strlit("/");
                assert("/"@ =~= seq!['/']);
                if compiled(tree@, base@) is Ok {
                    lemma_reaches_every_path(tree@, base@);
                }
            }
            match find_bookmarks(&tree, base, &mut cwd_overwrited) {
                Ok(p) => Some(p),
                Err(e) => {
                    return Err(e);
                },
            }
        },
        None => None,
    };
    let scope = if cwd_overwrited {
        None
    } else {
        match scope_of(cwd) {
            Ok(s) => s,
            Err(e) => {
                return Err(e);
            },
        }
    };
    Ok(SearchPlan { query: compiled_query, scope, before, limit })
}

impl SearchPlan {
    /// Decides whether the plan admits the bookmark `b` of `store`.
    pub fn admits(&self, store: &Store, b: &Bookmark) -> (r: bool)
        ensures
            r == plan_admits(self@, store@, b@),
    {
        if b.deleted_at.is_some() {
            return false;
        }
        if self.before > 0 && b.id >= self.before {
            return false;
        }
        let by_query = match &self.query {
            Some(p) => p.admits(store, b),
            None => true,
        };
        if !by_query {
            return false;
        }
        match &self.scope {
            Some(s) => path_fits(s, store, b),
            None => true,
        }
    }

    /// Whether the row `k` can be the next of a page whose last id so far
    /// is `last`.
    pub open spec fn is_candidate(self, store: StoreView, last: Option<i32>, k: int) -> bool {
        &&& 0 <= k < store.bookmarks.len()
        &&& plan_admits(self@, store, store.bookmarks[k])
        &&& last matches Some(id) ==> store.bookmarks[k].id < id
    }

    /// The row with the largest id among the admitted rows below `last`.
    fn next_row(&self, store: &Store, flags: &Vec<bool>, last: Option<i32>) -> (r: Option<usize>)
        requires
            flags.len() == store.bookmarks.len(),
            forall|k: int|
                0 <= k < flags.len() ==> flags[k] == plan_admits(
                    self@,
                    store@,
                    #[trigger] store@.bookmarks[k],
                ),
        ensures
            match r {
                Some(m) => {
                    &&& self.is_candidate(store@, last, m as int)
                    &&& forall|k: int|
                        self.is_candidate(store@, last, k) ==> (#[trigger] store@.bookmarks[k]).id
                            <= store@.bookmarks[m as int].id
                    &&& forall|k: int|
                        0 <= k < m && self.is_candidate(store@, last, k) ==> (
                        #[trigger] store@.bookmarks[k]).id < store@.bookmarks[m as int].id
                },
                None => forall|k: int| !self.is_candidate(store@, last, k),
            },
    {
        let mut best: Option<usize> = None;
        let mut k: usize = 0;
        while k < flags.len()
            invariant
                k <= flags.len() == store.bookmarks.len(),
                forall|j: int|
                    0 <= j < flags.len() ==> flags[j] == plan_admits(
                        self@,
                        store@,
                        #[trigger] store@.bookmarks[j],
                    ),
                match best {
                    Some(m) => {
                        &&& m < k
                        &&& self.is_candidate(store@, last, m as int)
                        &&& forall|j: int|
                            0 <= j < k && self.is_candidate(store@, last, j) ==> (
                            #[trigger] store@.bookmarks[j]).id <= store@.bookmarks[m as int].id
                        &&& forall|j: int|
                            0 <= j < m && self.is_candidate(store@, last, j) ==> (
                            #[trigger] store@.bookmarks[j]).id < store@.bookmarks[m as int].id
                    },
                    None => forall|j: int| 0 <= j < k ==> !self.is_candidate(store@, last, j),
                },
            decreases flags.len() - k,
        {
            let id = store.bookmarks[k].id;
            let below = match last {
                Some(bound) => id < bound,
                None => true,
            };
            if flags[k] && below {
                let better = match best {
                    Some(m) => id > store.bookmarks[m].id,
                    None => true,
                };
                if better {
                    best = Some(k);
                }
            }
            k += 1;
        }
        best
    }

    /// Picks the page that the plan asks of `store`: the rows of the
    /// admitted bookmarks with the largest ids, largest first, one for each
    /// id, at most `limit` of them.
    pub fn run(&self, store: &Store) -> (rows: Vec<Bookmark>)
        requires
            self.limit >= 0,
        ensures
            is_page(bookmark_views(rows@), store@, self@),
    {
        let mut flags: Vec<bool> = Vec::new();
        let mut k: usize = 0;
        while k < store.bookmarks.len()
            invariant
                k <= store.bookmarks.len(),
                flags.len() == k,
                forall|j: int|
                    0 <= j < k ==> flags[j] == plan_admits(
                        self@,
                        store@,
                        #[trigger] store@.bookmarks[j],
                    ),
            decreases store.bookmarks.len() - k,
        {
            flags.push(self.admits(store, &store.bookmarks[k]));
            k += 1;
        }
        let mut rows: Vec<Bookmark> = Vec::new();
        let mut last: Option<i32> = None;
        loop
            invariant
                self.limit >= 0,
                flags.len() == store.bookmarks.len(),
                forall|j: int|
                    0 <= j < flags.len() ==> flags[j] == plan_admits(
                        self@,
                        store@,
                        #[trigger] store@.bookmarks[j],
                    ),
                rows.len() <= self.limit,
                rows.len() <= store.bookmarks.len(),
                last == (if rows.len() == 0 {
                    None
                } else {
                    Some(rows@.last().id)
                }),
                forall|i: int|
                    0 <= i < rows.len() ==> is_row_of(
                        #[trigger] bookmark_views(rows@)[i],
                        store@,
                        self@,
                    ),
                forall|i: int, j: int|
                    0 <= i < j < rows.len() ==> (#[trigger] bookmark_views(rows@)[i]).id > (
                    #[trigger] bookmark_views(rows@)[j]).id,
                forall|j: int|
                    0 <= j < store@.bookmarks.len() && plan_admits(
                        self@,
                        store@,
                        #[trigger] store@.bookmarks[j],
                    ) ==> has_id(bookmark_views(rows@), store@.bookmarks[j].id) || rows.len() == 0
                        || store@.bookmarks[j].id < rows@.last().id,
            ensures
                is_page(bookmark_views(rows@), store@, self@),
            decreases store.bookmarks.len() - rows.len(),
        {
            if rows.len() as u64 >= self.limit as u64 {
                break ;
            }
            let m = match self.next_row(store, &flags, last) {
                Some(m) => m,
                None => {
                    proof {
                        assert forall|j: int|
                            0 <= j < store@.bookmarks.len() && plan_admits(
                                self@,
                                store@,
                                #[trigger] store@.bookmarks[j],
                            ) implies has_id(bookmark_views(rows@), store@.bookmarks[j].id) by {
                            assert(!self.is_candidate(store@, last, j));
                        }
                    }
                    break ;
                },
            };
            let row = store.bookmarks[m].clone();
            let ghost before = bookmark_views(rows@);
            proof {
                assert forall|i: int| 0 <= i < before.len() implies store@.bookmarks.contains(
                    #[trigger] before[i],
                ) by {
                    assert(is_row_of(before[i], store@, self@));
                }
                lemma_fewer_rows_than_bookmarks(before, store@, m as int);
                assert(is_first_admitted(self@, store@, m as int)) by {
                    assert forall|j: int| 0 <= j < m implies !(plan_admits(
                        self@,
                        store@,
                        #[trigger] store@.bookmarks[j],
                    ) && store@.bookmarks[j].id == store@.bookmarks[m as int].id) by {
                        if plan_admits(self@, store@, store@.bookmarks[j]) && store@.bookmarks[j].id
                            == store@.bookmarks[m as int].id {
                            assert(self.is_candidate(store@, last, j));
                        }
                    }
                }
            }
            rows.push(row);
            last = Some(store.bookmarks[m].id);
            proof {
                let after = bookmark_views(rows@);
                assert(after =~= before.push(store@.bookmarks[m as int]));
                assert forall|i: int| 0 <= i < after.len() implies is_row_of(
                    #[trigger] after[i],
                    store@,
                    self@,
                ) by {
                    if i < before.len() {
                        assert(after[i] == before[i]);
                    }
                }
                assert forall|j: int|
                    0 <= j < store@.bookmarks.len() && plan_admits(
                        self@,
                        store@,
                        #[trigger] store@.bookmarks[j],
                    ) implies has_id(after, store@.bookmarks[j].id) || store@.bookmarks[j].id
                    < rows@.last().id by {
                    let id = store@.bookmarks[j].id;
                    if has_id(before, id) {
                        let i = choose|i: int| 0 <= i < before.len() && (#[trigger] before[i]).id == id;
                        assert(after[i].id == id);
                    } else {
                        assert(self.is_candidate(store@, if before.len() == 0 {
                            None
                        } else {
                            Some(before.last().id)
                        }, j));
                        if id == store@.bookmarks[m as int].id {
                            assert(after[after.len() - 1].id == id);
                        }
                    }
                }
            }
        }
        rows
    }
}

/// Searches the store: plans the search, picks the page and adds to each
/// bookmark its folder and its tags.
///
/// A query that cannot be read or compiled, and a `cwd` that is no path
/// where the search is held to it, fail the search. Otherwise the result is
/// the page that the plan asks for, largest id first, and no deleted
/// bookmark is on it.
pub fn search_bookmarks(
    store: &Store,
    query: Option<&str>,
    cwd: Option<&str>,
    before: i32,
    limit: i64,
) -> (r: Result<Vec<(Bookmark, Option<Folder>, Vec<Tag>)>, CommonError>)
    requires
        limit >= 0,
    ensures
        match planned(text_of(query), text_of(cwd), before, limit) {
            Ok(plan) => r matches Ok(rows) && is_page(bookmarks_of(rows@), store@, plan) && forall|
                i: int,
            |
                0 <= i < rows.len() ==> details_found(store@, #[trigger] rows[i]),
            Err(f) => r matches Err(e) && e@ == f,
        },
        match query {
            Some(text) => query_of(text@) is None ==> (r matches Err(
                CommonError::BearQL(BearQLError::SyntaxError { msg, ql, err_msg }),
            ) && msg@ == "failed to parse query"@ && ql@ == text@ && err_msg@ == diagnostic(
                text@,
            )),
            None => true,
        },
        r matches Ok(rows) ==> forall|i: int|
            0 <= i < rows.len() ==> (#[trigger] rows[i]).0.deleted_at is None,
{
    let plan = match plan_search(query, cwd, before, limit) {
        Ok(plan) => plan,
        Err(e) => {
            return Err(e);
        },
    };
    let page = plan.run(store);
    let rows = get_bookmark_details(store, page);
    proof {
        assert(bookmarks_of(rows@) =~= bookmark_views(page@));
        assert forall|i: int| 0 <= i < rows.len() implies (#[trigger] rows[i]).0.deleted_at is None by {
            assert(is_row_of(bookmark_views(page@)[i], store@, plan@));
        }
    }
    Ok(rows)
}

/// Rows of the store with ids that fall from row to row and all lie above
/// the id of the bookmark `m` are fewer than the store has bookmarks.
proof fn lemma_fewer_rows_than_bookmarks(rows: Seq<BookmarkView>, store: StoreView, m: int)
    requires
        0 <= m < store.bookmarks.len(),
        forall|i: int| 0 <= i < rows.len() ==> store.bookmarks.contains(#[trigger] rows[i]),
        forall|i: int, j: int|
            0 <= i < j < rows.len() ==> (#[trigger] rows[i]).id > (#[trigger] rows[j]).id,
        forall|i: int| 0 <= i < rows.len() ==> (#[trigger] rows[i]).id > store.bookmarks[m].id,
    ensures
        rows.len() < store.bookmarks.len(),
{
    // The ids of the rows and of the row `m` are distinct ids of bookmarks.
    let ids = rows.map_values(|b: BookmarkView| b.id).push(store.bookmarks[m].id);
    let all = store.bookmarks.map_values(|b: BookmarkView| b.id);
    assert(ids.no_duplicates()) by {
        assert forall|i: int, j: int| 0 <= i < ids.len() && 0 <= j < ids.len() && i != j implies ids[i]
            != ids[j] by {
            if i < rows.len() && j < rows.len() {
                if i < j {
                    assert(rows[i].id > rows[j].id);
                } else {
                    assert(rows[j].id > rows[i].id);
                }
            } else if i < rows.len() {
                assert(rows[i].id > store.bookmarks[m].id);
            } else {
                assert(rows[j].id > store.bookmarks[m].id);
            }
        }
    }
    assert(ids.to_set().subset_of(all.to_set())) by {
        assert forall|id: i32| ids.to_set().contains(id) implies all.to_set().contains(id) by {
            let i = choose|i: int| 0 <= i < ids.len() && ids[i] == id;
            if i < rows.len() {
                let k = choose|k: int| 0 <= k < store.bookmarks.len() && store.bookmarks[k] == rows[i];
                assert(all[k] == id);
            } else {
                assert(all[m] == id);
            }
        }
    }
    ids.unique_seq_to_set();
    all.lemma_cardinality_of_set();
    vstd::set_lib::lemma_len_subset(ids.to_set(), all.to_set());
}


/// Where two pages for one plan agree on the rows before `i`, and the first
/// has a row `i`, the second has the same row there.
proof fn lemma_pages_agree_at(
    a: Seq<BookmarkView>,
    b: Seq<BookmarkView>,
    store: StoreView,
    plan: SearchPlanView,
    i: int,
)
    requires
        is_page(a, store, plan),
        is_page(b, store, plan),
        0 <= i < a.len(),
        i <= b.len(),
        forall|j: int| 0 <= j < i ==> #[trigger] a[j] == b[j],
    ensures
        i < b.len(),
        a[i] == b[i],
{
    let x = a[i];
    assert(is_row_of(x, store, plan));
    let k = choose|k: int| is_first_admitted(plan, store, k) && store.bookmarks[k] == x;
    assert(plan_admits(plan, store, store.bookmarks[k]));
    if has_id(b, x.id) {
        let at = choose|at: int| 0 <= at < b.len() && (#[trigger] b[at]).id == x.id;
        if at < i {
            assert(a[at].id == b[at].id);
            assert(a[at].id > a[i].id);
        }
        if at > i {
            assert(b[i].id > b[at].id);
        }
    } else {
        assert(b.len() == plan.limit);
        assert(a.len() <= plan.limit);
        if b.len() - 1 > i {
            assert(b[i].id > b[b.len() - 1].id);
        }
    }
    assert(i < b.len());
    assert(b[i].id >= x.id);
    let y = b[i];
    assert(is_row_of(y, store, plan));
    let m = choose|m: int| is_first_admitted(plan, store, m) && store.bookmarks[m] == y;
    assert(plan_admits(plan, store, store.bookmarks[m]));
    if has_id(a, y.id) {
        let at = choose|at: int| 0 <= at < a.len() && (#[trigger] a[at]).id == y.id;
        if at < i {
            assert(a[at].id == b[at].id);
            assert(b[at].id > b[i].id);
        }
        if at > i {
            assert(a[i].id > a[at].id);
        }
    } else {
        if a.len() - 1 > i {
            assert(a[i].id > a[a.len() - 1].id);
        }
    }
    // both rows are the first admitted bookmark with the id
    assert(x.id == y.id);
    if k < m {
        assert(!(plan_admits(plan, store, store.bookmarks[k]) && store.bookmarks[k].id
            == store.bookmarks[m].id));
    }
    if m < k {
        assert(!(plan_admits(plan, store, store.bookmarks[m]) && store.bookmarks[m].id
            == store.bookmarks[k].id));
    }
}

/// Two pages for one plan agree on the first `n` rows of the first.
proof fn lemma_pages_agree_to(
    a: Seq<BookmarkView>,
    b: Seq<BookmarkView>,
    store: StoreView,
    plan: SearchPlanView,
    n: int,
)
    requires
        is_page(a, store, plan),
        is_page(b, store, plan),
        0 <= n <= a.len(),
    ensures
        n <= b.len(),
        forall|j: int| 0 <= j < n ==> #[trigger] a[j] == b[j],
    decreases n,
{
    if n > 0 {
        lemma_pages_agree_to(a, b, store, plan, n - 1);
        lemma_pages_agree_at(a, b, store, plan, n - 1);
    }
}

/// A plan has one page: two pages of one store for one plan are the same.
pub proof fn lemma_page_is_determined(
    a: Seq<BookmarkView>,
    b: Seq<BookmarkView>,
    store: StoreView,
    plan: SearchPlanView,
)
    requires
        is_page(a, store, plan),
        is_page(b, store, plan),
    ensures
        a == b,
{
    lemma_pages_agree_to(a, b, store, plan, a.len() as int);
    lemma_pages_agree_to(b, a, store, plan, b.len() as int);
    assert(a =~= b);
}

/// Cursor pagination leaves no gap and shows no bookmark twice: a full
/// page, followed by the page that is asked for with the last id of the
/// first as cursor, is the page that one larger request would have
/// returned. The last id of the first page has to be positive, as a cursor
/// of zero or less asks for the first page again.
pub proof fn lemma_next_page_continues(
    first: Seq<BookmarkView>,
    second: Seq<BookmarkView>,
    store: StoreView,
    plan: SearchPlanView,
    more: i64,
)
    requires
        is_page(first, store, plan),
        first.len() == plan.limit > 0,
        first.last().id > 0,
        0 <= more,
        plan.limit + more <= i64::MAX,
        is_page(second, store, SearchPlanView { before: first.last().id, limit: more, ..plan }),
    ensures
        is_page(
            first + second,
            store,
            SearchPlanView { limit: (plan.limit + more) as i64, ..plan },
        ),
        forall|i: int, j: int|
            0 <= i < first.len() && 0 <= j < second.len() ==> (#[trigger] first[i]).id > (
            #[trigger] second[j]).id,
{
    let cursor = first.last().id;
    let next = SearchPlanView { before: cursor, limit: more, ..plan };
    let whole = SearchPlanView { limit: (plan.limit + more) as i64, ..plan };
    let rows = first + second;
    assert(is_row_of(first[first.len() - 1], store, plan));
    assert forall|i: int, j: int| 0 <= i < first.len() && 0 <= j < second.len() implies (
    #[trigger] first[i]).id > (#[trigger] second[j]).id by {
        assert(is_row_of(second[j], store, next));
        if i < first.len() - 1 {
            assert(first[i].id > first[first.len() - 1].id);
        }
    }
    assert forall|i: int| 0 <= i < rows.len() implies is_row_of(#[trigger] rows[i], store, whole) by {
        if i < first.len() {
            assert(rows[i] == first[i]);
            assert(is_row_of(first[i], store, plan));
            let k = choose|k: int| is_first_admitted(plan, store, k) && store.bookmarks[k] == first[i];
            assert(is_first_admitted(whole, store, k)) by {
                assert forall|j: int| 0 <= j < k implies !(plan_admits(
                    whole,
                    store,
                    #[trigger] store.bookmarks[j],
                ) && store.bookmarks[j].id == store.bookmarks[k].id) by {
                    assert(plan_admits(whole, store, store.bookmarks[j]) == plan_admits(
                        plan,
                        store,
                        store.bookmarks[j],
                    ));
                }
            }
        } else {
            let row = second[i - first.len()];
            assert(rows[i] == row);
            assert(is_row_of(row, store, next));
            let k = choose|k: int| is_first_admitted(next, store, k) && store.bookmarks[k] == row;
            assert(is_first_admitted(whole, store, k)) by {
                assert forall|j: int| 0 <= j < k implies !(plan_admits(
                    whole,
                    store,
                    #[trigger] store.bookmarks[j],
                ) && store.bookmarks[j].id == store.bookmarks[k].id) by {
                    if store.bookmarks[j].id == store.bookmarks[k].id {
                        assert(plan_admits(whole, store, store.bookmarks[j]) ==> plan_admits(
                            next,
                            store,
                            store.bookmarks[j],
                        ));
                    }
                }
            }
        }
    }
    assert forall|i: int, j: int| 0 <= i < j < rows.len() implies (#[trigger] rows[i]).id > (
    #[trigger] rows[j]).id by {
        if j < first.len() {
            assert(first[i].id > first[j].id);
        } else if i < first.len() {
            assert(first[i].id > second[j - first.len()].id);
        } else {
            assert(second[i - first.len()].id > second[j - first.len()].id);
        }
    }
    assert forall|k: int|
        0 <= k < store.bookmarks.len() && plan_admits(
            whole,
            store,
            #[trigger] store.bookmarks[k],
        ) implies has_id(rows, store.bookmarks[k].id) || (rows.len() == whole.limit && (rows.len()
        == 0 || store.bookmarks[k].id < rows.last().id)) by {
        let b = store.bookmarks[k];
        assert(plan_admits(plan, store, b));
        if has_id(first, b.id) {
            let i = choose|i: int| 0 <= i < first.len() && (#[trigger] first[i]).id == b.id;
            assert(rows[i].id == b.id);
        } else {
            assert(b.id < cursor);
            assert(plan_admits(next, store, b));
            if has_id(second, b.id) {
                let i = choose|i: int| 0 <= i < second.len() && (#[trigger] second[i]).id == b.id;
                assert(rows[first.len() + i].id == b.id);
            } else {
                assert(second.len() == more);
                if second.len() == 0 {
                    assert(rows.last() == first.last());
                } else {
                    assert(rows.last() == second.last());
                }
            }
        }
    }
}

/// A deleted bookmark is on no page: where every row of the store with the
/// id is deleted, no row of a page has the id.
pub proof fn lemma_deleted_is_never_found(
    rows: Seq<BookmarkView>,
    store: StoreView,
    plan: SearchPlanView,
    id: i32,
)
    requires
        is_page(rows, store, plan),
        forall|k: int|
            0 <= k < store.bookmarks.len() && (#[trigger] store.bookmarks[k]).id == id
                ==> store.bookmarks[k].deleted_at is Some,
    ensures
        !has_id(rows, id),
{
    if has_id(rows, id) {
        let i = choose|i: int| 0 <= i < rows.len() && (#[trigger] rows[i]).id == id;
        assert(is_row_of(rows[i], store, plan));
        let k = choose|k: int| is_first_admitted(plan, store, k) && store.bookmarks[k] == rows[i];
        assert(store.bookmarks[k].id == id);
    }
}

/// A query made of `#` alone, or of `#` and white space behind it, fails
/// with an empty tag, from whatever folder it is asked.
pub proof fn lemma_hash_query_is_empty_tag(
    blank: Seq<char>,
    cwd: Option<Seq<char>>,
    before: i32,
    limit: i64,
)
    requires
        is_blank(blank),
    ensures
        planned(Some(seq!['#'] + blank), cwd, before, limit) == Err::<
            SearchPlanView,
            CommonErrorView,
        >(empty_tag()),
{
    let s = seq!['#'] + blank;
    let none = Seq::<char>::empty();
    assert(s.skip(0) =~= s);
    assert(s.skip(1) =~= blank);
    assert(leading(s, CharClass::Whitespace) == 0);
    assert(leading(blank, CharClass::Word) == 0);
    lemma_leading_is(blank, CharClass::Whitespace, blank.len());
    assert(s.subrange(1, 1) =~= none);
    assert(lexeme_at(s, 0) == Some((Lexeme::Tag(none), 1int)));
    assert(lexemes_from(s, 1) == Some(Seq::<Lexeme>::empty()));
    let ts = seq![Lexeme::Tag(none)];
    assert(seq![Lexeme::Tag(none)] + Seq::<Lexeme>::empty() =~= ts);
    assert(lexemes(s) == Some(ts));
    assert(primitive_at(ts, 0) == Some((QueryView::Tag(none), 1int)));
    assert(and_from(ts, 1, QueryView::Tag(none)) == Some((QueryView::Tag(none), 1int)));
    assert(or_from(ts, 1, QueryView::Tag(none)) == Some((QueryView::Tag(none), 1int)));
    assert(query_of(s) == Some(QueryView::Tag(none)));
    lemma_blank_tag_is_empty(none, base_folder(cwd));
}

/// A query that names a path is not held to the folder it is asked from:
/// its own path terms alone say where the search looks, and the folder only
/// serves to resolve its relative paths.
pub proof fn lemma_query_path_overrides_cwd(
    query: Seq<char>,
    cwd: Option<Seq<char>>,
    before: i32,
    limit: i64,
)
    requires
        query_of(query) matches Some(tree) && tree.has_path(),
    ensures
        planned(Some(query), cwd, before, limit) matches Ok(plan) ==> plan.scope is None,
        planned(Some(query), cwd, before, limit) is Err ==> compiled(
            query_of(query)->0,
            base_folder(cwd),
        ) is Err,
{
}

/// A search without a query, or with a query that names no path, is held
/// to the folder it is asked from, and fails where that folder is no path.
pub proof fn lemma_cwd_holds_a_search_without_path(
    query: Option<Seq<char>>,
    cwd: Option<Seq<char>>,
    before: i32,
    limit: i64,
)
    requires
        query matches Some(text) ==> (query_of(text) matches Some(tree) && !tree.has_path()
            && compiled(tree, base_folder(cwd)) is Ok),
    ensures
        match default_scope(cwd) {
            Ok(scope) => planned(query, cwd, before, limit) matches Ok(plan) && plan.scope == scope,
            Err(f) => planned(query, cwd, before, limit) == Err::<SearchPlanView, CommonErrorView>(f),
        },
{
}

/// A search fails on a text that is no query, on an empty tag, on an
/// empty keyword, and on nothing else but a folder to search in that is no
/// path, and on that only where the query names no path.
pub proof fn lemma_search_failures(
    query: Option<Seq<char>>,
    cwd: Option<Seq<char>>,
    before: i32,
    limit: i64,
)
    requires
        planned(query, cwd, before, limit) is Err,
    ensures
        ({
            let e = planned(query, cwd, before, limit)->Err_0;
            ||| query matches Some(text) && query_of(text) is None && e == CommonErrorView::BearQL(
                syntax_error(text),
            )
            ||| e == empty_tag()
            ||| e == empty_keyword()
            ||| e == CommonErrorView::InvalidCWD && default_scope(cwd) is Err && !(
            query matches Some(text) && query_of(text) matches Some(tree) && tree.has_path())
        }),
{
    if let Some(text) = query {
        if let Some(tree) = query_of(text) {
            lemma_compile_fails_on_empty_terms_alone(tree, base_folder(cwd));
            lemma_first_empty_term(tree);
        }
    }
}

/// A request for no rows gets the empty page.
pub proof fn lemma_limit_zero_is_empty(rows: Seq<BookmarkView>, store: StoreView, plan: SearchPlanView)
    requires
        is_page(rows, store, plan),
        plan.limit == 0,
    ensures
        rows.len() == 0,
{
}

} // verus!
