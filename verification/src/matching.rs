//! What a filter means: which bookmarks of a store it admits, and the
//! evaluation that decides it.
use vstd::prelude::*;
use crate::compiler::{compiled, Predicate, PredicateView};
use crate::query::QueryView;
use crate::path::{ResolvedPath, ResolvedPathView};
use crate::store::{Bookmark, BookmarkView, Store, StoreView};
use crate::text::{contains, has_prefix, occurs_in, same, starts_with, to_chars};

verus! {

/// The lowercase form of a text, as `str::to_lowercase` computes it.
pub uninterp spec fn lowercased(s: Seq<char>) -> Seq<char>;

/// `str::to_lowercase`: the lowercase equivalent of the string, as a new
/// string. It depends on the characters of `s` alone.
#[verifier::external_body]
fn lowercase(s: &str) -> (r: String)
    ensures
        r@ == lowercased(s@),
{
    s.to_lowercase()
}

/// Whether the folder at `folder` is the one at `path` or, where
/// `descendants` is set, lies below it.
pub open spec fn folder_matches(folder: Seq<char>, path: Seq<char>, descendants: bool) -> bool {
    folder == path || (descendants && starts_with(folder, path + seq!['/']))
}

/// Whether the bookmark lies in a folder of the store that matches `path`.
pub open spec fn in_folder(
    store: StoreView,
    b: BookmarkView,
    path: Seq<char>,
    descendants: bool,
) -> bool {
    exists|i: int|
        0 <= i < store.folders.len() && b.folder_id == Some((#[trigger] store.folders[i]).id)
            && folder_matches(store.folders[i].path, path, descendants)
}

/// Whether the bookmark is where the resolved path points.
pub open spec fn path_admits(p: ResolvedPathView, store: StoreView, b: BookmarkView) -> bool {
    match p {
        ResolvedPathView::Root => true,
        ResolvedPathView::RootOnly => b.folder_id is None,
        ResolvedPathView::FolderAndDescendants(path) => in_folder(store, b, path, true),
        ResolvedPathView::FolderOnly(path) => in_folder(store, b, path, false),
    }
}

/// Whether the link `i` joins the bookmark to the tag `j`, and that tag has
/// exactly this name.
pub open spec fn tagged_by(store: StoreView, b: BookmarkView, name: Seq<char>, i: int, j: int) -> bool {
    &&& 0 <= i < store.bookmarks_tags.len()
    &&& 0 <= j < store.tags.len()
    &&& store.bookmarks_tags[i].bookmark_id == b.id
    &&& store.bookmarks_tags[i].tag_id == store.tags[j].id
    &&& store.tags[j].name == name
}

/// Whether the bookmark carries a tag of exactly this name.
pub open spec fn carries(store: StoreView, b: BookmarkView, name: Seq<char>) -> bool {
    exists|i: int, j: int| tagged_by(store, b, name, i, j)
}

/// Whether the title or the address of the bookmark holds `text`, both
/// taken in lowercase.
pub open spec fn mentions(b: BookmarkView, text: Seq<char>) -> bool {
    occurs_in(lowercased(b.title), lowercased(text)) || occurs_in(
        lowercased(b.url),
        lowercased(text),
    )
}

/// Whether the filter admits the bookmark `b` of `store`.
pub open spec fn holds(p: PredicateView, store: StoreView, b: BookmarkView) -> bool
    decreases p,
{
    match p {
        PredicateView::Or(x, y) => holds(*x, store, b) || holds(*y, store, b),
        PredicateView::And(x, y) => holds(*x, store, b) && holds(*y, store, b),
        PredicateView::Path(path) => path_admits(path, store, b),
        PredicateView::Tag(name) => carries(store, b, name),
        PredicateView::Keyword(text) => mentions(b, text),
    }
}

/// Decides whether the folder at `folder` is the one at `path` or, where
/// `descendants` is set, lies below it.
pub fn folder_fits(folder: &Vec<char>, path: &Vec<char>, descendants: bool) -> (r: bool)
    ensures
        r == folder_matches(folder@, path@, descendants),
{
    if same(folder, path) {
        return true;
    }
    if !descendants || folder.len() <= path.len() {
        return false;
    }
    let r = has_prefix(folder, path) && folder[path.len()] == '/';
    proof {
        let below = path@ + seq!['/'];
        let head = folder@.take(below.len() as int);
        if r {
            assert(head =~= below);
        } else if starts_with(folder@, below) {
            assert(head[path@.len() as int] == '/');
            assert(folder@.take(path@.len() as int) =~= head.take(path@.len() as int));
            assert(head.take(path@.len() as int) =~= path@);
        }
    }
    r
}

/// Decides whether the bookmark lies in a folder that matches `path`.
pub fn lies_in(store: &Store, b: &Bookmark, path: &String, descendants: bool) -> (r: bool)
    ensures
        r == in_folder(store@, b@, path@, descendants),
{
    let folder_id = match b.folder_id {
        Some(id) => id,
        None => {
            return false;
        },
    };
    let wanted = to_chars(path.as_str());
    let mut i: usize = 0;
    while i < store.folders.len()
        invariant
            i <= store.folders.len(),
            wanted@ == path@,
            b.folder_id == Some(folder_id),
            forall|k: int|
                0 <= k < i ==> !(b@.folder_id == Some((#[trigger] store@.folders[k]).id)
                    && folder_matches(store@.folders[k].path, path@, descendants)),
        decreases store.folders.len() - i,
    {
        if store.folders[i].id == folder_id {
            let at = to_chars(store.folders[i].path.as_str());
            if folder_fits(&at, &wanted, descendants) {
                proof {
                    assert(store@.folders[i as int].id == folder_id);
                }
                return true;
            }
        }
        i += 1;
    }
    false
}

/// Decides whether the bookmark is where the resolved path points.
pub fn path_fits(p: &ResolvedPath, store: &Store, b: &Bookmark) -> (r: bool)
    ensures
        r == path_admits(p@, store@, b@),
{
    match p {
        ResolvedPath::Root => true,
        ResolvedPath::RootOnly => b.folder_id.is_none(),
        ResolvedPath::FolderAndDescendants(path) => lies_in(store, b, path, true),
        ResolvedPath::FolderOnly(path) => lies_in(store, b, path, false),
    }
}

/// Decides whether the store holds a tag of this id and exactly this name.
fn names_tag(store: &Store, tag_id: i32, name: &String) -> (r: bool)
    ensures
        r == exists|j: int|
            0 <= j < store@.tags.len() && (#[trigger] store@.tags[j]).id == tag_id
                && store@.tags[j].name == name@,
{
    let mut j: usize = 0;
    while j < store.tags.len()
        invariant
            j <= store.tags.len(),
            forall|k: int|
                0 <= k < j ==> !((#[trigger] store@.tags[k]).id == tag_id && store@.tags[k].name
                    == name@),
        decreases store.tags.len() - j,
    {
        if store.tags[j].id == tag_id && store.tags[j].name == *name {
            proof {
                assert(store@.tags[j as int].id == tag_id);
            }
            return true;
        }
        j += 1;
    }
    false
}

/// Decides whether the bookmark carries a tag of exactly this name.
pub fn has_tag(store: &Store, b: &Bookmark, name: &String) -> (r: bool)
    ensures
        r == carries(store@, b@, name@),
{
    let mut i: usize = 0;
    while i < store.bookmarks_tags.len()
        invariant
            i <= store.bookmarks_tags.len(),
            forall|k: int, j: int| 0 <= k < i ==> !tagged_by(store@, b@, name@, k, j),
        decreases store.bookmarks_tags.len() - i,
    {
        if store.bookmarks_tags[i].bookmark_id == b.id && names_tag(
            store,
            store.bookmarks_tags[i].tag_id,
            name,
        ) {
            proof {
                let j = choose|j: int|
                    0 <= j < store@.tags.len() && (#[trigger] store@.tags[j]).id
                        == store.bookmarks_tags[i as int].tag_id && store@.tags[j].name == name@;
                assert(tagged_by(store@, b@, name@, i as int, j));
            }
            return true;
        }
        proof {
            assert forall|j: int| !tagged_by(store@, b@, name@, i as int, j) by {
                if tagged_by(store@, b@, name@, i as int, j) {
                    assert(store@.tags[j].id == store.bookmarks_tags[i as int].tag_id);
                }
            }
        }
        i += 1;
    }
    false
}

/// Decides whether `text` occurs in `title` or in `address`. The three are
/// taken as they are: the caller hands in lowercase what it wants compared
/// without regard to case.
pub fn occurs_in_either(title: &Vec<char>, address: &Vec<char>, text: &Vec<char>) -> (r: bool)
    ensures
        r == (occurs_in(title@, text@) || occurs_in(address@, text@)),
{
    contains(title, text) || contains(address, text)
}

/// Decides whether the title or the address of the bookmark holds `text`,
/// whatever the case of the letters.
pub fn has_text(b: &Bookmark, text: &String) -> (r: bool)
    ensures
        r == mentions(b@, text@),
{
    let title = to_chars(lowercase(b.title.as_str()).as_str());
    let address = to_chars(lowercase(b.url.as_str()).as_str());
    let wanted = to_chars(lowercase(text.as_str()).as_str());
    occurs_in_either(&title, &address, &wanted)
}

impl Predicate {
    /// Decides whether the filter admits the bookmark `b` of `store`.
    pub fn admits(&self, store: &Store, b: &Bookmark) -> (r: bool)
        ensures
            r == holds(self@, store@, b@),
        decreases self,
    {
        match self {
            Predicate::Or(x, y) => x.admits(store, b) || y.admits(store, b),
            Predicate::And(x, y) => x.admits(store, b) && y.admits(store, b),
            Predicate::Path(p) => path_fits(p, store, b),
            Predicate::Tag(name) => has_tag(store, b, name),
            Predicate::Keyword(text) => has_text(b, text),
        }
    }
}


/// Parentheses group and mean nothing else: a parenthesized query compiles
/// to what the query inside compiles to.
pub proof fn lemma_parentheses_mean_nothing(q: QueryView, cwd: Seq<char>)
    ensures
        compiled(QueryView::Parenthesized(Box::new(q)), cwd) == compiled(q, cwd),
{
}

/// The filter of `a | b` admits what the filter of `a` or that of `b`
/// admits, and the filter of `a b` what both admit.
pub proof fn lemma_operators_mean_or_and_and(
    a: QueryView,
    b: QueryView,
    cwd: Seq<char>,
    store: StoreView,
    bookmark: BookmarkView,
)
    requires
        compiled(a, cwd) is Ok,
        compiled(b, cwd) is Ok,
    ensures
        compiled(QueryView::Or(Box::new(a), Box::new(b)), cwd) matches Ok(either) && holds(
            either,
            store,
            bookmark,
        ) == (holds(compiled(a, cwd)->Ok_0, store, bookmark) || holds(
            compiled(b, cwd)->Ok_0,
            store,
            bookmark,
        )),
        compiled(QueryView::And(Box::new(a), Box::new(b)), cwd) matches Ok(both) && holds(
            both,
            store,
            bookmark,
        ) == (holds(compiled(a, cwd)->Ok_0, store, bookmark) && holds(
            compiled(b, cwd)->Ok_0,
            store,
            bookmark,
        )),
{
}

/// A folder and the folders below it hold what the folder alone holds: a
/// bookmark that a path admits without descendants, the same path admits
/// with them.
pub proof fn lemma_folder_alone_is_within(store: StoreView, b: BookmarkView, path: Seq<char>)
    requires
        path_admits(ResolvedPathView::FolderOnly(path), store, b),
    ensures
        path_admits(ResolvedPathView::FolderAndDescendants(path), store, b),
{
    let i = choose|i: int|
        0 <= i < store.folders.len() && b.folder_id == Some((#[trigger] store.folders[i]).id)
            && folder_matches(store.folders[i].path, path, false);
    assert(folder_matches(store.folders[i].path, path, true));
}

/// A folder whose path goes on after `path` and a `/` lies below `path`:
/// it matches with descendants and does not match without.
pub proof fn lemma_folder_below(path: Seq<char>, rest: Seq<char>)
    ensures
        folder_matches(path + seq!['/'] + rest, path, true),
        !folder_matches(path + seq!['/'] + rest, path, false),
{
    let folder = path + seq!['/'] + rest;
    let below = path + seq!['/'];
    assert(folder.take(below.len() as int) =~= below);
    assert(folder.len() != path.len());
}

/// Whether the character has a meaning of its own in a `LIKE` pattern.
pub open spec fn is_like_special(c: char) -> bool {
    c == '%' || c == '_' || c == '\\'
}

/// The text as a `LIKE` pattern that stands for the text itself: a `\`
/// before each `%`, `_` and `\`.
pub open spec fn like_escaped(s: Seq<char>) -> Seq<char>
    decreases s.len(),
{
    if s.len() == 0 {
        Seq::empty()
    } else if is_like_special(s.last()) {
        like_escaped(s.drop_last()).push('\\').push(s.last())
    } else {
        like_escaped(s.drop_last()).push(s.last())
    }
}

/// Appends to `out` the text as a `LIKE` pattern that stands for the text
/// itself.
fn push_like_escaped(out: &mut String, text: &str)
    ensures
        final(out)@ == old(out)@ + like_escaped(text@),
{
    let v = to_chars(text);
    let mut k: usize = 0;
    proof {
        assert(v@.take(0) =~= Seq::<char>::empty());
        assert(out@ + Seq::<char>::empty() =~= out@);
    }
    while k < v.len()
        invariant
            k <= v.len(),
            v@ == text@,
            out@ == old(out)@ + like_escaped(v@.take(k as int)),
        decreases v.len() - k,
    {
        let ghost before = out@;
        proof {
            assert(v@.take(k + 1).drop_last() =~= v@.take(k as int));
        }
        let c = v[k];
        if c == '%' || c == '_' || c == '\\' {
            out.push('\\');
        }
        out.push(c);
        proof {
            assert(out@ =~= old(out)@ + like_escaped(v@.take(k + 1)));
        }
        k += 1;
    }
    proof {
        assert(v@.take(v@.len() as int) =~= v@);
    }
}

/// The `LIKE` pattern of the texts that hold `text`, for a store that
/// matches a keyword with `ILIKE`.
pub fn contains_pattern(text: &str) -> (pattern: String)
    ensures
        pattern@ == seq!['%'] + like_escaped(text@) + seq!['%'],
{
    let mut pattern = String::new();
    pattern.push('%');
    push_like_escaped(&mut pattern, text);
    pattern.push('%');
    proof {
        assert(pattern@ =~= seq!['%'] + like_escaped(text@) + seq!['%']);
    }
    pattern
}

/// The `LIKE` pattern of the paths of the folders below `path`.
pub fn below_pattern(path: &str) -> (pattern: String)
    ensures
        pattern@ == like_escaped(path@) + seq!['/', '%'],
{
    let mut pattern = String::new();
    push_like_escaped(&mut pattern, path);
    pattern.push('/');
    pattern.push('%');
    proof {
        assert(pattern@ =~= like_escaped(path@) + seq!['/', '%']);
    }
    pattern
}

} // verus!
