//! Folder paths: joining a path term to the folder a search starts from,
//! and telling which bookmarks a path selects.
use vstd::prelude::*;
use crate::errors::CommonError;
use crate::lexer::{is_path, run_end, segments_end, slashes_end};
use crate::text::{
    ends_with, is_word, leading, push_range, skip_leading, skip_trailing, strip_end, to_chars,
    to_string, trailing, CharClass,
};

verus! {

/// What a path selects.
#[derive(Debug, PartialEq, Eq)]
pub enum ResolvedPath {
    /// `/`: every bookmark.
    Root,
    /// `//`: the bookmarks that are in no folder.
    RootOnly,
    /// A folder and all folders below it.
    FolderAndDescendants(String),
    /// A folder alone (the path ended in `//`).
    FolderOnly(String),
}

/// The mathematical value of a [`ResolvedPath`].
pub ghost enum ResolvedPathView {
    Root,
    RootOnly,
    FolderAndDescendants(Seq<char>),
    FolderOnly(Seq<char>),
}

impl View for ResolvedPath {
    type V = ResolvedPathView;

    open spec fn view(&self) -> ResolvedPathView {
        match self {
            ResolvedPath::Root => ResolvedPathView::Root,
            ResolvedPath::RootOnly => ResolvedPathView::RootOnly,
            ResolvedPath::FolderAndDescendants(p) => ResolvedPathView::FolderAndDescendants(p@),
            ResolvedPath::FolderOnly(p) => ResolvedPathView::FolderOnly(p@),
        }
    }
}

/// Whether the segment is `.`, which stands for the folder itself.
pub open spec fn is_dot(segment: Seq<char>) -> bool {
    segment == seq!['.']
}

/// The segments of `s`, cut at every `/`, without the `.` segments.
pub open spec fn kept_segments(s: Seq<char>) -> Seq<Seq<char>>
    decreases s.len(),
{
    let n = leading(s, CharClass::Unslashed);
    let here = if is_dot(s.take(n as int)) {
        Seq::<Seq<char>>::empty()
    } else {
        seq![s.take(n as int)]
    };
    if n < s.len() {
        here + kept_segments(s.skip(n as int + 1))
    } else {
        here
    }
}

/// The segments written one after the other with a `/` between them.
pub open spec fn joined_segments(parts: Seq<Seq<char>>) -> Seq<char>
    decreases parts.len(),
{
    if parts.len() == 0 {
        Seq::empty()
    } else if parts.len() == 1 {
        parts[0]
    } else {
        joined_segments(parts.drop_last()) + seq!['/'] + parts.last()
    }
}

/// Whether the path starts at the root.
pub open spec fn is_absolute(p: Seq<char>) -> bool {
    p.len() > 0 && p[0] == '/'
}

/// The text as a path: the root where the text is empty, as nothing but
/// the root is left of a path without segments.
pub open spec fn or_root(s: Seq<char>) -> Seq<char> {
    if s.len() == 0 {
        seq!['/']
    } else {
        s
    }
}

/// The path `p` seen from the folder `cwd`. An absolute path stays as it
/// is. A relative one is appended, segment by segment, to `cwd` without its
/// closing slashes, and no `.` segment of either is kept. Where nothing is
/// left, as for `.` seen from the root, the path is the root.
pub open spec fn joined_path(cwd: Seq<char>, p: Seq<char>) -> Seq<char> {
    if is_absolute(p) {
        p
    } else {
        or_root(
            joined_segments(kept_segments(strip_end(cwd, CharClass::Slash)) + kept_segments(p)),
        )
    }
}

/// Appends to `out`, which holds the segments `done` joined, the kept
/// segments of `v[..to]`.
fn append_segments(
    out: &mut Vec<char>,
    started: bool,
    v: &Vec<char>,
    to: usize,
    Ghost(done): Ghost<Seq<Seq<char>>>,
) -> (r: (bool, Ghost<Seq<Seq<char>>>))
    requires
        to <= v.len(),
        old(out)@ == joined_segments(done),
        started == (done.len() > 0),
    ensures
        final(out)@ == joined_segments(r.1@),
        r.1@ == done + kept_segments(v@.take(to as int)),
        r.0 == (r.1@.len() > 0),
{
    let ghost s = v@.take(to as int);
    let ghost mut all = done;
    let mut any = started;
    let mut pos: usize = 0;
    proof {
        assert(s.skip(0) == s);
        assert(done + kept_segments(s) == all + kept_segments(s.skip(0)));
    }
    loop
        invariant
            pos <= to <= v.len(),
            s == v@.take(to as int),
            out@ == joined_segments(all),
            any == (all.len() > 0),
            done + kept_segments(s) == all + kept_segments(s.skip(pos as int)),
        decreases to - pos,
    {
        let e = skip_leading(v, pos, to, CharClass::Unslashed);
        let ghost rest = s.skip(pos as int);
        let ghost segment = v@.subrange(pos as int, e as int);
        proof {
            assert(rest == v@.subrange(pos as int, to as int));
            assert(rest.take(e - pos) == segment);
            if e < to {
                assert(rest.skip(e - pos + 1) == s.skip(e + 1));
            }
        }
        let dot = e - pos == 1 && v[pos] == '.';
        proof {
            if dot {
                assert(segment =~= seq!['.']);
            } else if segment.len() == 1 {
                assert(segment[0] != '.');
            }
        }
        if !dot {
            let ghost before = all;
            if any {
                out.push('/');
            }
            push_range(out, v, pos, e);
            proof {
                all = all.push(segment);
                assert(all.drop_last() == before);
                assert(before + (seq![segment] + kept_segments(s.skip(e + 1))) == all
                    + kept_segments(s.skip(e + 1)));
                assert(before + seq![segment] == all);
            }
            any = true;
        } else {
            proof {
                assert(Seq::<Seq<char>>::empty() + kept_segments(s.skip(e + 1)) == kept_segments(
                    s.skip(e + 1),
                ));
                assert(all + Seq::<Seq<char>>::empty() == all);
            }
        }
        if e >= to {
            proof {
                assert(all + Seq::<Seq<char>>::empty() == all);
            }
            return (any, Ghost(all));
        }
        pos = e + 1;
    }
}

/// Joins the path term `p` to the folder `cwd` that the search starts from.
pub fn join_folder_path(cwd: &str, p: &str) -> (out: String)
    ensures
        out@ == joined_path(cwd@, p@),
{
    let pv = to_chars(p);
    if pv.len() > 0 && pv[0] == '/' {
        return p.to_owned();
    }
    let cv = to_chars(cwd);
    let end = skip_trailing(&cv, 0, cv.len(), CharClass::Slash);
    let mut out: Vec<char> = Vec::new();
    proof {
        assert(cv@.subrange(0, cv.len() as int) == cv@);
        assert(pv@.take(pv.len() as int) == pv@);
    }
    let (any, Ghost(first)) = append_segments(&mut out, false, &cv, end, Ghost(Seq::empty()));
    let (_, Ghost(both)) = append_segments(&mut out, any, &pv, pv.len(), Ghost(first));
    proof {
        assert(Seq::<Seq<char>>::empty() + kept_segments(cv@.take(end as int)) == kept_segments(
            cv@.take(end as int),
        ));
    }
    if out.len() == 0 {
        out.push('/');
        proof {
            assert(out@ =~= seq!['/']);
        }
    }
    proof {
        assert(out@.subrange(0, out.len() as int) == out@);
    }
    to_string(&out, 0, out.len())
}

/// What the joined path `path` selects; `None` where nothing is left of it
/// once its closing slashes are taken off.
pub open spec fn resolved(path: Seq<char>) -> Option<ResolvedPathView> {
    if path == seq!['/'] {
        Some(ResolvedPathView::Root)
    } else if path == seq!['/', '/'] {
        Some(ResolvedPathView::RootOnly)
    } else {
        folder_of(path)
    }
}

/// The folder that `path` names, alone where `path` ends in `//` and with
/// the folders below it otherwise; `None` where `path` is made of slashes
/// only.
pub open spec fn folder_of(path: Seq<char>) -> Option<ResolvedPathView> {
    let folder = strip_end(path, CharClass::Slash);
    if folder.len() == 0 {
        None
    } else if ends_with(path, seq!['/', '/']) {
        Some(ResolvedPathView::FolderOnly(folder))
    } else {
        Some(ResolvedPathView::FolderAndDescendants(folder))
    }
}

/// Tells which folder `p` names: the path without its closing slashes,
/// alone where `p` ends in `//`. A path with nothing but slashes is
/// rejected.
pub fn find_bookmarks_in_path(p: &str) -> (r: Result<ResolvedPath, CommonError>)
    ensures
        match r {
            Ok(found) => folder_of(p@) == Some(found@),
            Err(e) => folder_of(p@) is None && e is InvalidCWD,
        },
{
    let v = to_chars(p);
    let end = skip_trailing(&v, 0, v.len(), CharClass::Slash);
    proof {
        assert(v@.subrange(0, v.len() as int) == v@);
    }
    if end == 0 {
        return Err(CommonError::InvalidCWD);
    }
    let folder = to_string(&v, 0, end);
    let without_descendants = v.len() - end >= 2;
    proof {
        crate::text::lemma_trailing(v@, CharClass::Slash);
        let n = v@.len() as int;
        if without_descendants {
            assert(v@.skip(n - 2) =~= seq!['/', '/']);
        } else if n >= 2 {
            assert(v@.skip(n - 2)[0] == v@[n - 2]);
        }
    }
    if without_descendants {
        Ok(ResolvedPath::FolderOnly(folder))
    } else {
        Ok(ResolvedPath::FolderAndDescendants(folder))
    }
}

/// Tells what the joined path `path` selects: everything for `/`, the
/// bookmarks without a folder for `//`, a folder otherwise.
pub fn resolve_path(path: &str) -> (r: Result<ResolvedPath, CommonError>)
    ensures
        match r {
            Ok(found) => resolved(path@) == Some(found@),
            Err(e) => resolved(path@) is None && e is InvalidCWD,
        },
{
    let v = to_chars(path);
    if v.len() == 1 && v[0] == '/' {
        proof {
            assert(v@ =~= seq!['/']);
        }
        Ok(ResolvedPath::Root)
    } else if v.len() == 2 && v[0] == '/' && v[1] == '/' {
        proof {
            assert(v@ =~= seq!['/', '/']);
        }
        Ok(ResolvedPath::RootOnly)
    } else {
        proof {
            if v@ == seq!['/'] {
                assert(v@.len() == 1 && v@[0] == '/');
            }
            if v@ == seq!['/', '/'] {
                assert(v@.len() == 2 && v@[0] == '/' && v@[1] == '/');
            }
        }
        find_bookmarks_in_path(path)
    }
}

/// What a path term selects once it is joined: everything for `/`, a
/// folder where the path names one, and the bookmarks without a folder for
/// `//` and every longer path of slashes alone, which names the root
/// without what lies below it.
pub open spec fn resolved_term(path: Seq<char>) -> ResolvedPathView {
    if path == seq!['/'] {
        ResolvedPathView::Root
    } else {
        match folder_of(path) {
            Some(found) => found,
            None => ResolvedPathView::RootOnly,
        }
    }
}

/// Tells what the joined path of a term selects.
pub fn resolve_term(path: &str) -> (found: ResolvedPath)
    ensures
        found@ == resolved_term(path@),
{
    let v = to_chars(path);
    if v.len() == 1 && v[0] == '/' {
        proof {
            assert(v@ =~= seq!['/']);
        }
        return ResolvedPath::Root;
    }
    proof {
        if v@ == seq!['/'] {
            assert(v@.len() == 1 && v@[0] == '/');
        }
    }
    match find_bookmarks_in_path(path) {
        Ok(found) => found,
        Err(_) => ResolvedPath::RootOnly,
    }
}

/// Where a path resolves, a term of that path selects what it resolves to.
pub proof fn lemma_resolved_term(path: Seq<char>)
    ensures
        resolved(path) matches Some(found) ==> resolved_term(path) == found,
{
    let both = seq!['/', '/'];
    if path == both {
        assert(both.len() == 2 && both[0] == '/' && both[1] == '/');
        crate::text::lemma_trailing_is(path, CharClass::Slash, 2);
    }
}

/// Whether `s` has a `.` segment: a `.` that stands between two ends or
/// separators.
pub open spec fn has_dot_segment(s: Seq<char>) -> bool {
    exists|i: int| is_dot_segment_at(s, i)
}

/// Whether the character `i` of `s` is a `.` segment.
pub open spec fn is_dot_segment_at(s: Seq<char>, i: int) -> bool {
    &&& 0 <= i < s.len()
    &&& s[i] == '.'
    &&& i == 0 || s[i - 1] == '/'
    &&& i + 1 == s.len() || s[i + 1] == '/'
}

/// Whether the part holds no `/` and is not `.`.
pub open spec fn is_clean(part: Seq<char>) -> bool {
    !is_dot(part) && forall|i: int| 0 <= i < part.len() ==> part[i] != '/'
}

/// Whether every part is clean.
pub open spec fn are_clean(parts: Seq<Seq<char>>) -> bool {
    forall|k: int| 0 <= k < parts.len() ==> is_clean(#[trigger] parts[k])
}

/// The kept segments of a text hold no `/` and none of them is `.`.
pub proof fn lemma_kept_segments_are_clean(s: Seq<char>)
    ensures
        are_clean(kept_segments(s)),
    decreases s.len(),
{
    let n = leading(s, CharClass::Unslashed);
    crate::text::lemma_leading(s, CharClass::Unslashed);
    let first = s.take(n as int);
    let here = if is_dot(first) {
        Seq::<Seq<char>>::empty()
    } else {
        seq![first]
    };
    assert forall|i: int| 0 <= i < first.len() implies first[i] != '/' by {
        assert(CharClass::Unslashed.has(s[i]));
    }
    if n < s.len() {
        let rest = kept_segments(s.skip(n as int + 1));
        lemma_kept_segments_are_clean(s.skip(n as int + 1));
        assert forall|k: int| 0 <= k < (here + rest).len() implies is_clean(
            #[trigger] (here + rest)[k],
        ) by {
            if k >= here.len() {
                assert((here + rest)[k] == rest[k - here.len()]);
            }
        }
    }
}

/// Clean parts, joined, have no `.` segment.
pub proof fn lemma_joined_clean_has_no_dot(parts: Seq<Seq<char>>)
    requires
        are_clean(parts),
    ensures
        !has_dot_segment(joined_segments(parts)),
    decreases parts.len(),
{
    let whole = joined_segments(parts);
    if parts.len() == 1 {
        assert(is_clean(parts[0]));
        assert forall|i: int| !is_dot_segment_at(whole, i) by {
            if is_dot_segment_at(whole, i) {
                assert(whole =~= seq!['.']);
            }
        }
    } else if parts.len() > 1 {
        let front = parts.drop_last();
        let prev = joined_segments(front);
        let last = parts.last();
        assert(is_clean(last));
        assert forall|k: int| 0 <= k < front.len() implies is_clean(#[trigger] front[k]) by {
            assert(front[k] == parts[k]);
        }
        lemma_joined_clean_has_no_dot(front);
        assert forall|i: int| !is_dot_segment_at(whole, i) by {
            if is_dot_segment_at(whole, i) {
                let p = prev.len() as int;
                if i < p {
                    assert(whole[i] == prev[i]);
                    if i > 0 {
                        assert(whole[i - 1] == prev[i - 1]);
                    }
                    if i + 1 < p {
                        assert(whole[i + 1] == prev[i + 1]);
                    }
                    assert(is_dot_segment_at(prev, i));
                } else if i == p {
                    assert(whole[i] == '/');
                } else {
                    let j = i - p - 1;
                    assert(whole[i] == last[j]);
                    if j > 0 {
                        assert(whole[i - 1] == last[j - 1]);
                    }
                    if i + 1 < whole.len() {
                        assert(whole[i + 1] == last[j + 1]);
                    }
                    assert(last =~= seq!['.']);
                }
            }
        }
    } else {
        assert forall|i: int| !is_dot_segment_at(whole, i) by {}
    }
}

/// A relative path, joined to any folder, has no `.` segment left.
pub proof fn lemma_joined_path_has_no_dot_segment(cwd: Seq<char>, p: Seq<char>)
    requires
        !is_absolute(p),
    ensures
        !has_dot_segment(joined_path(cwd, p)),
{
    let a = kept_segments(strip_end(cwd, CharClass::Slash));
    let b = kept_segments(p);
    lemma_kept_segments_are_clean(strip_end(cwd, CharClass::Slash));
    lemma_kept_segments_are_clean(p);
    assert forall|k: int| 0 <= k < (a + b).len() implies is_clean(#[trigger] (a + b)[k]) by {
        if k < a.len() {
            assert((a + b)[k] == a[k]);
        } else {
            assert((a + b)[k] == b[k - a.len()]);
        }
    }
    lemma_joined_clean_has_no_dot(a + b);
    assert forall|i: int| !is_dot_segment_at(seq!['/'], i) by {}
}

/// Joining two non-empty lists of parts puts a `/` between what each of
/// them joins to.
pub proof fn lemma_joined_concat(a: Seq<Seq<char>>, b: Seq<Seq<char>>)
    requires
        a.len() > 0,
        b.len() > 0,
    ensures
        joined_segments(a + b) == joined_segments(a) + seq!['/'] + joined_segments(b),
    decreases b.len(),
{
    assert((a + b).drop_last() =~= a + b.drop_last());
    assert((a + b).last() == b.last());
    if b.len() == 1 {
        assert(a + b.drop_last() =~= a);
    } else {
        lemma_joined_concat(a, b.drop_last());
        assert(joined_segments(a + b) =~= joined_segments(a) + seq!['/'] + joined_segments(b));
    }
}

/// A text without a `.` segment is its segments joined: nothing is dropped
/// when it is cut at the slashes and put together again.
pub proof fn lemma_segments_join_back(s: Seq<char>)
    requires
        !has_dot_segment(s),
    ensures
        kept_segments(s).len() > 0,
        joined_segments(kept_segments(s)) == s,
    decreases s.len(),
{
    let n = leading(s, CharClass::Unslashed);
    crate::text::lemma_leading(s, CharClass::Unslashed);
    let first = s.take(n as int);
    if is_dot(first) {
        assert(seq!['.'].len() == 1 && seq!['.'][0] == '.');
        assert(n == 1 && s[0] == first[0]);
        if 1 < s.len() {
            assert(!CharClass::Unslashed.has(s[1]));
        }
        assert(is_dot_segment_at(s, 0));
    }
    if n < s.len() {
        let rest = s.skip(n as int + 1);
        assert forall|i: int| !is_dot_segment_at(rest, i) by {
            if is_dot_segment_at(rest, i) {
                assert(is_dot_segment_at(s, i + n + 1));
            }
        }
        lemma_segments_join_back(rest);
        lemma_joined_concat(seq![first], kept_segments(rest));
        assert(s =~= first + seq!['/'] + rest);
    } else {
        assert(first =~= s);
    }
}

/// Whether every character of `s` from `from` on is a `/` or a word
/// character.
pub open spec fn is_plain_from(s: Seq<char>, from: int) -> bool {
    forall|i: int| from <= i < s.len() ==> #[trigger] s[i] == '/' || is_word(s[i])
}

/// The `/word` segments of a path hold nothing but slashes and word
/// characters.
proof fn lemma_segments_are_plain(s: Seq<char>, from: int)
    requires
        0 <= from <= s.len(),
    ensures
        from <= segments_end(s, from) <= s.len(),
        forall|i: int| from <= i < segments_end(s, from) ==> #[trigger] s[i] == '/' || is_word(s[i]),
    decreases s.len() - from,
{
    let e = run_end(s, from + 1, CharClass::Word);
    if from + 1 < s.len() && s[from] == '/' && is_word(s[from + 1]) && from < e <= s.len() {
        crate::text::lemma_leading(s.skip(from + 1), CharClass::Word);
        lemma_segments_are_plain(s, e);
        assert forall|i: int| from <= i < segments_end(s, from) implies #[trigger] s[i] == '/'
            || is_word(s[i]) by {
            if from < i < e {
                assert(s[i] == s.skip(from + 1)[i - from - 1]);
                assert(CharClass::Word.has(s.skip(from + 1)[i - from - 1]));
            }
        }
    }
}

/// A relative path term begins with `.`; a `/` or nothing follows, and
/// nothing but slashes and word characters after that.
pub proof fn lemma_relative_term(p: Seq<char>)
    requires
        is_path(p),
        !is_absolute(p),
    ensures
        p[0] == '.',
        p.len() == 1 || p[1] == '/',
        is_plain_from(p, 1),
{
    if p[0] != '.' {
        // nothing of a path starts here
        assert(segments_end(p, 0) == 0);
    }
    lemma_segments_are_plain(p, 1);
    let e = segments_end(p, 1);
    assert forall|i: int| 1 <= i < p.len() implies #[trigger] p[i] == '/' || is_word(p[i]) by {
        if i >= e {
            assert(slashes_end(p, e) == p.len());
        }
    }
}

/// A relative path term is appended to the folder it is asked from: what
/// follows its `.` goes behind the folder without its closing slashes, and
/// `.` alone asked from the root is the root. The folder has to be absolute
/// and free of `.` segments, as the paths of folders are.
pub proof fn lemma_relative_term_is_appended(cwd: Seq<char>, p: Seq<char>)
    requires
        is_absolute(cwd),
        !has_dot_segment(cwd),
        is_path(p),
        !is_absolute(p),
    ensures
        joined_path(cwd, p) == or_root(strip_end(cwd, CharClass::Slash) + p.skip(1)),
{
    let folder = strip_end(cwd, CharClass::Slash);
    crate::text::lemma_trailing(cwd, CharClass::Slash);
    assert forall|i: int| !is_dot_segment_at(folder, i) by {
        if is_dot_segment_at(folder, i) {
            if i + 1 == folder.len() && i + 1 < cwd.len() {
                assert(CharClass::Slash.has(cwd[i + 1]));
            }
            assert(is_dot_segment_at(cwd, i));
        }
    }
    lemma_segments_join_back(folder);
    lemma_relative_term(p);
    crate::text::lemma_leading_is(p, CharClass::Unslashed, 1);
    assert(p.take(1) =~= seq!['.']);
    if p.len() == 1 {
        assert(kept_segments(p) =~= Seq::<Seq<char>>::empty());
        assert(kept_segments(folder) + kept_segments(p) =~= kept_segments(folder));
        assert(p.skip(1) =~= Seq::<char>::empty());
        assert(folder + p.skip(1) =~= folder);
    } else {
        let rest = p.skip(2);
        assert forall|i: int| !is_dot_segment_at(rest, i) by {
            if is_dot_segment_at(rest, i) {
                assert(p[i + 2] == '.');
            }
        }
        lemma_segments_join_back(rest);
        assert(kept_segments(p) =~= kept_segments(rest));
        lemma_joined_concat(kept_segments(folder), kept_segments(rest));
        assert(p.skip(1) =~= seq!['/'] + rest);
        assert(folder + seq!['/'] + rest =~= folder + p.skip(1));
    }
}

/// Joining keeps the mark of a path term: the joined path ends in `//`
/// exactly if the term does, from whatever folder it is asked. The folder
/// has to be absolute and free of `.` segments, as the paths of folders
/// are.
pub proof fn lemma_join_keeps_the_mark(cwd: Seq<char>, p: Seq<char>)
    requires
        is_absolute(cwd),
        !has_dot_segment(cwd),
        is_path(p),
    ensures
        ends_with(joined_path(cwd, p), seq!['/', '/']) == ends_with(p, seq!['/', '/']),
{
    if !is_absolute(p) {
        lemma_relative_term_is_appended(cwd, p);
        lemma_relative_term(p);
        crate::text::lemma_trailing(cwd, CharClass::Slash);
        let folder = strip_end(cwd, CharClass::Slash);
        let rest = p.skip(1);
        let whole = folder + rest;
        let mark = seq!['/', '/'];
        if whole.len() == 0 {
            assert(!ends_with(seq!['/'], mark));
            if ends_with(p, mark) {
                assert(p.skip(p.len() - 2)[0] == '/');
            }
        } else if rest.len() >= 2 {
            assert(whole.skip(whole.len() - 2) =~= rest.skip(rest.len() - 2));
            assert(p.skip(p.len() - 2) =~= rest.skip(rest.len() - 2));
        } else {
            if ends_with(p, mark) {
                assert(p.skip(p.len() - 2)[0] == '/');
            }
            if ends_with(whole, mark) {
                assert(whole.skip(whole.len() - 2)[0] == '/');
                assert(whole.skip(whole.len() - 2)[1] == '/');
                if rest.len() == 1 {
                    assert(folder[folder.len() - 1] == '/');
                } else {
                    assert(folder[folder.len() - 1] == '/');
                }
            }
        }
    }
}

/// A text with a character that is no slash keeps that character when its
/// closing slashes are taken off.
proof fn lemma_strip_keeps(s: Seq<char>, i: int)
    requires
        0 <= i < s.len(),
        s[i] != '/',
    ensures
        strip_end(s, CharClass::Slash).len() > i,
{
    crate::text::lemma_trailing(s, CharClass::Slash);
    if s.len() - trailing(s, CharClass::Slash) <= i {
        assert(CharClass::Slash.has(s[i]));
    }
}

/// A path asked from an absolute folder is absolute.
pub proof fn lemma_joined_path_is_absolute(cwd: Seq<char>, p: Seq<char>)
    requires
        is_absolute(cwd),
    ensures
        is_absolute(joined_path(cwd, p)),
{
    if !is_absolute(p) {
        let folder = strip_end(cwd, CharClass::Slash);
        let none = Seq::<char>::empty();
        crate::text::lemma_trailing(cwd, CharClass::Slash);
        // the first segment of the folder is the empty one before its `/`
        if folder.len() > 0 {
            assert(folder[0] == cwd[0]);
        }
        assert(leading(folder, CharClass::Unslashed) == 0);
        assert(folder.take(0) =~= none);
        assert(none.len() == 0 && seq!['.'].len() == 1);
        let first = seq![none];
        let later = if folder.len() > 0 {
            kept_segments(folder.skip(1))
        } else {
            Seq::<Seq<char>>::empty()
        };
        assert(kept_segments(folder) =~= first + later);
        let rest = later + kept_segments(p);
        assert(kept_segments(folder) + kept_segments(p) =~= first + rest);
        if rest.len() > 0 {
            lemma_joined_concat(first, rest);
            let whole = joined_segments(first + rest);
            assert(whole[0] == '/');
        } else {
            assert(first + rest =~= first);
        }
    }
}

/// A path term asked from a folder always selects something: joined to an
/// absolute folder that is free of `.` segments, it resolves to the root,
/// to the bookmarks without a folder, or to a folder.
pub proof fn lemma_path_term_resolves(cwd: Seq<char>, p: Seq<char>)
    requires
        is_absolute(cwd),
        !has_dot_segment(cwd),
        is_path(p),
    ensures
        resolved(joined_path(cwd, p)) is Some,
{
    let root = seq!['/'];
    let both = seq!['/', '/'];
    if is_absolute(p) {
        // either slashes alone, one or two, or a word behind the first slash
        if 1 < p.len() && is_word(p[1]) {
            lemma_strip_keeps(p, 1);
            assert(p != root);
            assert(both[1] == '/');
        } else {
            assert(segments_end(p, 0) == 0);
            if p.len() == 1 {
                assert(p =~= root);
            } else {
                assert(p =~= both);
            }
        }
    } else {
        lemma_relative_term_is_appended(cwd, p);
        lemma_relative_term(p);
        crate::text::lemma_trailing(cwd, CharClass::Slash);
        let folder = strip_end(cwd, CharClass::Slash);
        let rest = p.skip(1);
        let whole = folder + rest;
        if folder.len() > 0 {
            // the folder ends in a character that is no slash
            let at = folder.len() - 1;
            assert(folder[0] == cwd[0]);
            assert(whole[at] == folder[at]);
            lemma_strip_keeps(whole, at);
            assert(root.len() == 1);
            assert(both[at] == '/' || at >= 2);
        } else if rest.len() > 0 {
            assert(whole =~= rest);
            if 2 < p.len() && is_word(p[2]) {
                assert(rest[1] == p[2]);
                lemma_strip_keeps(rest, 1);
                assert(rest != root);
                assert(both[1] == '/');
            } else {
                assert(segments_end(p, 1) == 1);
                assert(rest[0] == p[1]);
                if rest.len() == 1 {
                    assert(rest =~= root);
                } else {
                    assert(rest[1] == p[2]);
                    assert(rest =~= both);
                }
            }
        }
    }
}

/// A bare `.` is the folder it is asked from: joined to a folder it is
/// that folder without its closing slashes, and the root where the folder
/// is the root.
pub proof fn lemma_dot_is_the_folder(cwd: Seq<char>)
    requires
        is_absolute(cwd),
        !has_dot_segment(cwd),
    ensures
        joined_path(cwd, seq!['.']) == or_root(strip_end(cwd, CharClass::Slash)),
        joined_path(seq!['/'], seq!['.']) == seq!['/'],
{
    let dot = seq!['.'];
    let root = seq!['/'];
    assert(dot.len() == 1 && dot[0] == '.');
    assert(segments_end(dot, 1) == 1);
    assert(is_path(dot));
    lemma_relative_term_is_appended(cwd, dot);
    assert(dot.skip(1) =~= Seq::<char>::empty());
    assert(strip_end(cwd, CharClass::Slash) + dot.skip(1) =~= strip_end(cwd, CharClass::Slash));
    assert(root.len() == 1 && root[0] == '/');
    crate::text::lemma_trailing_is(root, CharClass::Slash, 1);
    assert(strip_end(root, CharClass::Slash) =~= Seq::<char>::empty());
    assert forall|i: int| !is_dot_segment_at(root, i) by {}
    lemma_relative_term_is_appended(root, dot);
}

} // verus!
