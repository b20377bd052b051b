//! The details of a bookmark: its folder and its tags, sorted by name.
use std::collections::HashMap;
use vstd::prelude::*;
use vstd::seq_lib::{to_multiset_build, to_multiset_insert};
use vstd::std_specs::hash::group_hash_axioms;
use crate::store::{Bookmark, BookmarkTag, BookmarkView, Folder, FolderView, Store, StoreView, Tag, TagView};
use crate::text::to_chars;

verus! {

broadcast use group_hash_axioms;

/// The order of names: character by character, a proper prefix first.
pub open spec fn name_le(a: Seq<char>, b: Seq<char>) -> bool
    decreases a.len(),
{
    if a.len() == 0 {
        true
    } else if b.len() == 0 {
        false
    } else if a[0] != b[0] {
        a[0] < b[0]
    } else {
        name_le(a.skip(1), b.skip(1))
    }
}

/// Of two names, one comes before the other or they are the same.
pub proof fn lemma_name_le_total(a: Seq<char>, b: Seq<char>)
    ensures
        name_le(a, b) || name_le(b, a),
    decreases a.len(),
{
    if a.len() > 0 && b.len() > 0 && a[0] == b[0] {
        lemma_name_le_total(a.skip(1), b.skip(1));
    }
}

/// The order of names is transitive.
pub proof fn lemma_name_le_transitive(a: Seq<char>, b: Seq<char>, c: Seq<char>)
    requires
        name_le(a, b),
        name_le(b, c),
    ensures
        name_le(a, c),
    decreases a.len(),
{
    if a.len() > 0 && b.len() > 0 && c.len() > 0 && a[0] == b[0] && b[0] == c[0] {
        lemma_name_le_transitive(a.skip(1), b.skip(1), c.skip(1));
    }
}

/// The tags among `tags` that have the id, in their order.
pub open spec fn tags_with_id(tags: Seq<TagView>, id: i32) -> Seq<TagView>
    decreases tags.len(),
{
    if tags.len() == 0 {
        Seq::empty()
    } else if tags.last().id == id {
        tags_with_id(tags.drop_last(), id).push(tags.last())
    } else {
        tags_with_id(tags.drop_last(), id)
    }
}

/// The tags that the links join to the bookmark, link by link.
pub open spec fn linked_tags(links: Seq<BookmarkTag>, tags: Seq<TagView>, bookmark: i32) -> Seq<
    TagView,
>
    decreases links.len(),
{
    if links.len() == 0 {
        Seq::empty()
    } else if links.last().bookmark_id == bookmark {
        linked_tags(links.drop_last(), tags, bookmark) + tags_with_id(tags, links.last().tag_id)
    } else {
        linked_tags(links.drop_last(), tags, bookmark)
    }
}

/// Whether the tags come in the order of their names.
pub open spec fn sorted_by_name(tags: Seq<TagView>) -> bool {
    forall|i: int, j: int|
        0 <= i < j < tags.len() ==> name_le((#[trigger] tags[i]).name, (#[trigger] tags[j]).name)
}

/// The values of a sequence of tags.
pub open spec fn tag_views(tags: Seq<Tag>) -> Seq<TagView> {
    Seq::new(tags.len(), |i: int| tags[i]@)
}

/// The number of tags at the front of `sorted` whose names come before
/// `name` or are the same: where a tag of that name goes in.
pub open spec fn insertion_point(sorted: Seq<TagView>, name: Seq<char>) -> nat
    decreases sorted.len(),
{
    if sorted.len() > 0 && name_le(sorted[0].name, name) {
        1 + insertion_point(sorted.skip(1), name)
    } else {
        0
    }
}

/// The tags in the order of their names. Each tag goes in behind the tags
/// before it that have its name or come before it, so tags of one name keep
/// their order.
pub open spec fn by_name(tags: Seq<TagView>) -> Seq<TagView>
    decreases tags.len(),
{
    if tags.len() == 0 {
        Seq::empty()
    } else {
        let sorted = by_name(tags.drop_last());
        sorted.insert(insertion_point(sorted, tags.last().name) as int, tags.last())
    }
}

/// Whether `tags` are the tags of the bookmark: the tags that the links of
/// the store join to it, in the order of their names.
pub open spec fn tags_found(store: StoreView, bookmark: i32, tags: Seq<TagView>) -> bool {
    tags == by_name(linked_tags(store.bookmarks_tags, store.tags, bookmark))
}

/// The folder that an id finds among `folders`: the last one with the id,
/// as a later folder takes the place of an earlier one with its id.
pub open spec fn last_with_id(folders: Seq<FolderView>, id: i32) -> Option<FolderView>
    decreases folders.len(),
{
    if folders.len() == 0 {
        None
    } else if folders.last().id == id {
        Some(folders.last())
    } else {
        last_with_id(folders.drop_last(), id)
    }
}

/// Whether `found` is the folder of the bookmark: the folder that the id
/// which the bookmark names finds in the store, and none where the bookmark
/// names none or the store has no such folder.
pub open spec fn folder_found(store: StoreView, b: BookmarkView, found: Option<FolderView>) -> bool {
    found == match b.folder_id {
        Some(id) => last_with_id(store.folders, id),
        None => None,
    }
}

/// Whether the map holds, under each id, the folder that the id finds
/// among `folders`, and nothing else.
pub open spec fn indexes(map: Map<i32, Folder>, folders: Seq<FolderView>) -> bool {
    forall|id: i32|
        match #[trigger] last_with_id(folders, id) {
            Some(f) => map.contains_key(id) && map[id]@ == f,
            None => !map.contains_key(id),
        }
}

/// The value of an optional folder.
pub open spec fn folder_view(f: Option<Folder>) -> Option<FolderView> {
    match f {
        Some(x) => Some(x@),
        None => None,
    }
}

/// Whether the row holds the folder and the tags of its bookmark.
pub open spec fn details_found(store: StoreView, row: (Bookmark, Option<Folder>, Vec<Tag>)) -> bool {
    &&& folder_found(store, row.0@, folder_view(row.1))
    &&& tags_found(store, row.0.id, tag_views(row.2@))
}

/// Decides whether the name `a` comes before the name `b` or is the same.
pub fn name_before_or_same(a: &Vec<char>, b: &Vec<char>) -> (r: bool)
    ensures
        r == name_le(a@, b@),
{
    let mut i: usize = 0;
    proof {
        assert(a@.skip(0) == a@);
        assert(b@.skip(0) == b@);
    }
    loop
        invariant
            i <= a.len(),
            i <= b.len(),
            name_le(a@, b@) == name_le(a@.skip(i as int), b@.skip(i as int)),
        decreases a.len() - i,
    {
        if i == a.len() {
            return true;
        }
        if i == b.len() {
            return false;
        }
        if a[i] != b[i] {
            return a[i] < b[i];
        }
        proof {
            assert(a@.skip(i as int).skip(1) == a@.skip(i + 1));
            assert(b@.skip(i as int).skip(1) == b@.skip(i + 1));
        }
        i += 1;
    }
}

/// The folders of the store by their ids.
pub fn folder_map(store: &Store) -> (map: HashMap<i32, Folder>)
    ensures
        indexes(map@, store@.folders),
{
    let mut map: HashMap<i32, Folder> = HashMap::new();
    let mut k: usize = 0;
    proof {
        assert(store@.folders.take(0) =~= Seq::<FolderView>::empty());
    }
    while k < store.folders.len()
        invariant
            k <= store.folders.len(),
            indexes(map@, store@.folders.take(k as int)),
        decreases store.folders.len() - k,
    {
        let ghost before = map@;
        let ghost seen = store@.folders.take(k as int);
        let ghost next = store@.folders.take(k + 1);
        let folder = store.folders[k].clone();
        let id = folder.id;
        map.insert(id, folder);
        proof {
            assert(next.drop_last() =~= seen);
            assert(next.last() == store@.folders[k as int]);
            assert forall|other: i32|
                match #[trigger] last_with_id(next, other) {
                    Some(f) => map@.contains_key(other) && map@[other]@ == f,
                    None => !map@.contains_key(other),
                } by {
                if other != id {
                    assert(last_with_id(next, other) == last_with_id(seen, other));
                    assert(before.contains_key(other) == map@.contains_key(other));
                }
            }
        }
        k += 1;
    }
    proof {
        assert(store@.folders.take(store@.folders.len() as int) =~= store@.folders);
    }
    map
}

/// The folder of the bookmark: the one that the map holds under the id
/// that the bookmark names.
pub fn folder_details(map: &HashMap<i32, Folder>, b: &Bookmark) -> (found: Option<Folder>)
    ensures
        folder_view(found) == match b.folder_id {
            Some(id) => if map@.contains_key(id) {
                Some(map@[id]@)
            } else {
                None
            },
            None => None,
        },
{
    match b.folder_id {
        Some(id) => match map.get(&id) {
            Some(folder) => Some(folder.clone()),
            None => None,
        },
        None => None,
    }
}

/// Appends to `out` the tags of the store that have the id.
fn push_tags_with_id(out: &mut Vec<Tag>, store: &Store, id: i32)
    ensures
        tag_views(final(out)@) == tag_views(old(out)@) + tags_with_id(store@.tags, id),
{
    let ghost start = tag_views(out@);
    let mut j: usize = 0;
    while j < store.tags.len()
        invariant
            j <= store.tags.len(),
            tag_views(out@) == start + tags_with_id(store@.tags.take(j as int), id),
        decreases store.tags.len() - j,
    {
        let ghost before = tag_views(out@);
        proof {
            assert(store@.tags.take(j + 1).drop_last() == store@.tags.take(j as int));
        }
        if store.tags[j].id == id {
            out.push(store.tags[j].clone());
            proof {
                assert(tag_views(out@) =~= before.push(store@.tags[j as int]));
                assert(before.push(store@.tags[j as int]) =~= start + tags_with_id(
                    store@.tags.take(j as int),
                    id,
                ).push(store@.tags[j as int]));
            }
        }
        j += 1;
    }
    proof {
        assert(store@.tags.take(store@.tags.len() as int) == store@.tags);
    }
}

/// The tags that the links of the store join to the bookmark, link by link.
pub fn collect_tags(store: &Store, bookmark: i32) -> (out: Vec<Tag>)
    ensures
        tag_views(out@) == linked_tags(store@.bookmarks_tags, store@.tags, bookmark),
{
    let mut out: Vec<Tag> = Vec::new();
    let mut i: usize = 0;
    proof {
        assert(tag_views(out@) =~= Seq::<TagView>::empty());
    }
    while i < store.bookmarks_tags.len()
        invariant
            i <= store.bookmarks_tags.len(),
            tag_views(out@) == linked_tags(
                store@.bookmarks_tags.take(i as int),
                store@.tags,
                bookmark,
            ),
        decreases store.bookmarks_tags.len() - i,
    {
        proof {
            assert(store@.bookmarks_tags.take(i + 1).drop_last() == store@.bookmarks_tags.take(
                i as int,
            ));
        }
        if store.bookmarks_tags[i].bookmark_id == bookmark {
            push_tags_with_id(&mut out, store, store.bookmarks_tags[i].tag_id);
        }
        i += 1;
    }
    proof {
        assert(store@.bookmarks_tags.take(store@.bookmarks_tags.len() as int)
            == store@.bookmarks_tags);
    }
    out
}

/// The insertion point counts a maximal run: every tag before it comes
/// before `name` or has it, and the tag at it, if any, comes after `name`.
pub proof fn lemma_insertion_point(sorted: Seq<TagView>, name: Seq<char>)
    ensures
        insertion_point(sorted, name) <= sorted.len(),
        forall|i: int|
            0 <= i < insertion_point(sorted, name) ==> name_le((#[trigger] sorted[i]).name, name),
        insertion_point(sorted, name) < sorted.len() ==> !name_le(
            sorted[insertion_point(sorted, name) as int].name,
            name,
        ),
    decreases sorted.len(),
{
    if sorted.len() > 0 && name_le(sorted[0].name, name) {
        let rest = sorted.skip(1);
        lemma_insertion_point(rest, name);
        assert forall|i: int| 0 <= i < insertion_point(sorted, name) implies name_le(
            (#[trigger] sorted[i]).name,
            name,
        ) by {
            if i > 0 {
                assert(sorted[i] == rest[i - 1]);
            }
        }
        if insertion_point(sorted, name) < sorted.len() {
            assert(sorted[insertion_point(sorted, name) as int] == rest[insertion_point(
                rest,
                name,
            ) as int]);
        }
    }
}

/// Sorting by name gives the same tags, each as often, in the order of
/// their names.
pub proof fn lemma_by_name_is_sorted(tags: Seq<TagView>)
    ensures
        sorted_by_name(by_name(tags)),
        by_name(tags).to_multiset() == tags.to_multiset(),
        by_name(tags).len() == tags.len(),
    decreases tags.len(),
{
    if tags.len() > 0 {
        let front = tags.drop_last();
        let t = tags.last();
        let before = by_name(front);
        let pos = insertion_point(before, t.name) as int;
        let after = by_name(tags);
        lemma_by_name_is_sorted(front);
        lemma_insertion_point(before, t.name);
        to_multiset_insert(before, pos, t);
        assert(tags =~= front.push(t));
        to_multiset_build(front, t);
        assert forall|i: int, j: int| 0 <= i < j < after.len() implies name_le(
            (#[trigger] after[i]).name,
            (#[trigger] after[j]).name,
        ) by {
            if j < pos {
                assert(after[i] == before[i] && after[j] == before[j]);
            } else if j == pos {
                assert(after[i] == before[i]);
            } else if i == pos {
                // the tag that stood at `pos` comes after the new one, and
                // every later tag after that one
                assert(after[j] == before[j - 1]);
                lemma_name_le_total(before[pos].name, t.name);
                if j - 1 > pos {
                    assert(name_le(before[pos].name, before[j - 1].name));
                    lemma_name_le_transitive(t.name, before[pos].name, before[j - 1].name);
                }
            } else if i < pos {
                assert(after[i] == before[i] && after[j] == before[j - 1]);
            } else {
                assert(after[i] == before[i - 1] && after[j] == before[j - 1]);
            }
        }
    } else {
        assert(by_name(tags) =~= tags);
    }
}

/// Sorts tags by name. Tags of one name keep their order.
pub fn sort_tags(tags: &Vec<Tag>) -> (out: Vec<Tag>)
    ensures
        tag_views(out@) == by_name(tag_views(tags@)),
{
    let mut out: Vec<Tag> = Vec::new();
    let mut k: usize = 0;
    proof {
        assert(tag_views(out@) =~= Seq::<TagView>::empty());
        assert(tag_views(tags@).take(0) =~= Seq::<TagView>::empty());
    }
    while k < tags.len()
        invariant
            k <= tags.len(),
            out.len() == k,
            tag_views(out@) == by_name(tag_views(tags@).take(k as int)),
        decreases tags.len() - k,
    {
        let name = to_chars(tags[k].name.as_str());
        let ghost before = tag_views(out@);
        let mut pos: usize = 0;
        proof {
            assert(before.skip(0) =~= before);
        }
        while pos < out.len() && name_before_or_same(&to_chars(out[pos].name.as_str()), &name)
            invariant
                pos <= out.len(),
                before == tag_views(out@),
                name@ == tags@[k as int]@.name,
                pos + insertion_point(before.skip(pos as int), name@) == insertion_point(
                    before,
                    name@,
                ),
            decreases out.len() - pos,
        {
            proof {
                assert(before.skip(pos as int)[0] == before[pos as int]);
                assert(before.skip(pos as int).skip(1) =~= before.skip(pos + 1));
            }
            pos += 1;
        }
        proof {
            if pos < out.len() {
                assert(before.skip(pos as int)[0] == before[pos as int]);
            }
            assert(insertion_point(before.skip(pos as int), name@) == 0);
        }
        let tag = tags[k].clone();
        out.insert(pos, tag);
        proof {
            let seen = tag_views(tags@).take(k + 1);
            assert(seen.drop_last() =~= tag_views(tags@).take(k as int));
            assert(seen.last() == tags@[k as int]@);
            assert(tag_views(out@) =~= before.insert(pos as int, tags@[k as int]@));
        }
        k += 1;
    }
    proof {
        assert(tag_views(tags@).take(tags@.len() as int) =~= tag_views(tags@));
    }
    out
}

/// The tags of the bookmark, sorted by name.
pub fn tag_details(store: &Store, bookmark: i32) -> (tags: Vec<Tag>)
    ensures
        tags_found(store@, bookmark, tag_views(tags@)),
{
    let linked = collect_tags(store, bookmark);
    sort_tags(&linked)
}

/// The values of the bookmarks of a sequence of rows.
pub open spec fn bookmarks_of(rows: Seq<(Bookmark, Option<Folder>, Vec<Tag>)>) -> Seq<BookmarkView> {
    Seq::new(rows.len(), |i: int| rows[i].0@)
}

/// Adds to each bookmark its folder, if it has one in the store, and its
/// tags, sorted by name. The bookmarks keep their order.
pub fn get_bookmark_details(store: &Store, bookmarks: Vec<Bookmark>) -> (rows: Vec<
    (Bookmark, Option<Folder>, Vec<Tag>),
>)
    ensures
        rows.len() == bookmarks.len(),
        forall|i: int| 0 <= i < rows.len() ==> (#[trigger] rows[i]).0@ == bookmarks[i]@,
        forall|i: int| 0 <= i < rows.len() ==> details_found(store@, #[trigger] rows[i]),
{
    let folders = folder_map(store);
    let mut rows: Vec<(Bookmark, Option<Folder>, Vec<Tag>)> = Vec::new();
    let mut k: usize = 0;
    while k < bookmarks.len()
        invariant
            k <= bookmarks.len(),
            rows.len() == k,
            indexes(folders@, store@.folders),
            forall|i: int| 0 <= i < k ==> (#[trigger] rows[i]).0@ == bookmarks[i]@,
            forall|i: int| 0 <= i < k ==> details_found(store@, #[trigger] rows[i]),
        decreases bookmarks.len() - k,
    {
        let b = bookmarks[k].clone();
        let folder = folder_details(&folders, &b);
        proof {
            if let Some(id) = b.folder_id {
                assert(last_with_id(store@.folders, id) is Some <==> folders@.contains_key(id));
            }
        }
        let tags = tag_details(store, b.id);
        rows.push((b, folder, tags));
        k += 1;
    }
    rows
}

/// What an id finds is a folder with that id behind which no folder has
/// the id, and it finds none exactly where no folder has the id.
pub proof fn lemma_last_with_id(folders: Seq<FolderView>, id: i32)
    ensures
        match last_with_id(folders, id) {
            Some(f) => exists|k: int|
                {
                    &&& 0 <= k < folders.len()
                    &&& #[trigger] folders[k] == f
                    &&& f.id == id
                    &&& forall|j: int| k < j < folders.len() ==> (#[trigger] folders[j]).id != id
                },
            None => forall|k: int| 0 <= k < folders.len() ==> (#[trigger] folders[k]).id != id,
        },
    decreases folders.len(),
{
    if folders.len() > 0 {
        let front = folders.drop_last();
        if folders.last().id == id {
            assert(folders[folders.len() - 1] == folders.last());
        } else {
            lemma_last_with_id(front, id);
            match last_with_id(front, id) {
                Some(f) => {
                    let k = choose|k: int|
                        {
                            &&& 0 <= k < front.len()
                            &&& #[trigger] front[k] == f
                            &&& f.id == id
                            &&& forall|j: int|
                                k < j < front.len() ==> (#[trigger] front[j]).id != id
                        };
                    assert(folders[k] == f);
                    assert forall|j: int| k < j < folders.len() implies (#[trigger] folders[j]).id
                        != id by {
                        if j < front.len() {
                            assert(front[j] == folders[j]);
                        }
                    }
                },
                None => {
                    assert forall|k: int| 0 <= k < folders.len() implies (#[trigger] folders[k]).id
                        != id by {
                        if k < front.len() {
                            assert(front[k] == folders[k]);
                        }
                    }
                },
            }
        }
    }
}

/// Where the store holds the folder that a bookmark names, the details of
/// the bookmark hold a folder exactly if the bookmark names one.
pub proof fn lemma_folder_is_found_iff_named(
    store: StoreView,
    b: BookmarkView,
    found: Option<FolderView>,
)
    requires
        folder_found(store, b, found),
        b.folder_id matches Some(id) ==> exists|k: int|
            0 <= k < store.folders.len() && (#[trigger] store.folders[k]).id == id,
    ensures
        found is Some <==> b.folder_id is Some,
        found matches Some(f) ==> b.folder_id == Some(f.id),
{
    if let Some(id) = b.folder_id {
        lemma_last_with_id(store.folders, id);
    }
}

/// The tags of a bookmark are those that its links name: a tag is among
/// them exactly if some link joins the bookmark to a tag of the store that
/// is this tag.
pub proof fn lemma_linked_tags_are_the_linked(
    links: Seq<BookmarkTag>,
    tags: Seq<TagView>,
    bookmark: i32,
    tag: TagView,
)
    ensures
        linked_tags(links, tags, bookmark).contains(tag) <==> exists|i: int, j: int|
            0 <= i < links.len() && 0 <= j < tags.len() && (#[trigger] links[i]).bookmark_id
                == bookmark && links[i].tag_id == (#[trigger] tags[j]).id && tags[j] == tag,
    decreases links.len(),
{
    if links.len() > 0 {
        let front = links.drop_last();
        let last = links.last();
        lemma_linked_tags_are_the_linked(front, tags, bookmark, tag);
        lemma_tags_with_id(tags, last.tag_id, tag);
        let before = linked_tags(front, tags, bookmark);
        let here = tags_with_id(tags, last.tag_id);
        if linked_tags(links, tags, bookmark).contains(tag) {
            if before.contains(tag) {
                let (i, j) = choose|i: int, j: int|
                    0 <= i < front.len() && 0 <= j < tags.len() && (#[trigger] front[i]).bookmark_id
                        == bookmark && front[i].tag_id == (#[trigger] tags[j]).id && tags[j] == tag;
                assert(links[i] == front[i]);
            } else {
                assert(last.bookmark_id == bookmark);
                let at = choose|at: int|
                    0 <= at < (before + here).len() && (before + here)[at] == tag;
                assert(here[at - before.len()] == tag);
                let j = choose|j: int|
                    0 <= j < tags.len() && (#[trigger] tags[j]).id == last.tag_id && tags[j] == tag;
                assert(links[links.len() - 1] == last);
            }
        }
        if exists|i: int, j: int|
            0 <= i < links.len() && 0 <= j < tags.len() && (#[trigger] links[i]).bookmark_id
                == bookmark && links[i].tag_id == (#[trigger] tags[j]).id && tags[j] == tag {
            let (i, j) = choose|i: int, j: int|
                0 <= i < links.len() && 0 <= j < tags.len() && (#[trigger] links[i]).bookmark_id
                    == bookmark && links[i].tag_id == (#[trigger] tags[j]).id && tags[j] == tag;
            if i < front.len() {
                assert(front[i] == links[i]);
                assert(before.contains(tag));
                let at = choose|at: int| 0 <= at < before.len() && before[at] == tag;
                assert((before + here)[at] == tag);
            } else {
                assert(here.contains(tag));
                let at = choose|at: int| 0 <= at < here.len() && here[at] == tag;
                assert((before + here)[before.len() + at] == tag);
            }
        }
    }
}

/// A tag is among the tags with an id exactly if it is one of the tags and
/// has the id.
proof fn lemma_tags_with_id(tags: Seq<TagView>, id: i32, tag: TagView)
    ensures
        tags_with_id(tags, id).contains(tag) <==> exists|j: int|
            0 <= j < tags.len() && (#[trigger] tags[j]).id == id && tags[j] == tag,
    decreases tags.len(),
{
    if tags.len() > 0 {
        let front = tags.drop_last();
        lemma_tags_with_id(front, id, tag);
        let before = tags_with_id(front, id);
        if tags_with_id(tags, id).contains(tag) {
            if before.contains(tag) {
                let j = choose|j: int|
                    0 <= j < front.len() && (#[trigger] front[j]).id == id && front[j] == tag;
                assert(tags[j] == front[j]);
            } else {
                let at = choose|at: int|
                    0 <= at < tags_with_id(tags, id).len() && tags_with_id(tags, id)[at] == tag;
                assert(tags[tags.len() - 1] == tag);
            }
        }
        if exists|j: int| 0 <= j < tags.len() && (#[trigger] tags[j]).id == id && tags[j] == tag {
            let j = choose|j: int|
                0 <= j < tags.len() && (#[trigger] tags[j]).id == id && tags[j] == tag;
            if j < front.len() {
                assert(front[j] == tags[j]);
                let at = choose|at: int| 0 <= at < before.len() && before[at] == tag;
                if tags.last().id == id {
                    assert(before.push(tags.last())[at] == tag);
                }
            } else {
                assert(before.push(tags.last())[before.len() as int] == tag);
            }
        }
    }
}

} // verus!
