//! What is worked out when the tags of a bookmark are set: which names
//! have no tag yet, and the links to write.
use vstd::prelude::*;
use crate::store::{BookmarkTag, Tag};
use crate::text::texts;

verus! {

/// Whether some tag has the name.
pub open spec fn is_known(tags: Seq<Tag>, name: Seq<char>) -> bool {
    exists|j: int| 0 <= j < tags.len() && (#[trigger] tags[j]).name@ == name
}

/// The names, in their order, that no tag has.
pub open spec fn unknown_names(names: Seq<Seq<char>>, tags: Seq<Tag>) -> Seq<Seq<char>>
    decreases names.len(),
{
    if names.len() == 0 {
        Seq::empty()
    } else if is_known(tags, names.last()) {
        unknown_names(names.drop_last(), tags)
    } else {
        unknown_names(names.drop_last(), tags).push(names.last())
    }
}

/// Decides whether some tag has the name.
pub fn knows(tags: &Vec<Tag>, name: &String) -> (r: bool)
    ensures
        r == is_known(tags@, name@),
{
    let mut j: usize = 0;
    while j < tags.len()
        invariant
            j <= tags.len(),
            forall|i: int| 0 <= i < j ==> (#[trigger] tags@[i]).name@ != name@,
        decreases tags.len() - j,
    {
        if tags[j].name == *name {
            return true;
        }
        j += 1;
    }
    false
}

/// The names among `names` for which a tag has to be made: those that none
/// of the tags found in the store has.
pub fn missing_names(names: &Vec<String>, found: &Vec<Tag>) -> (out: Vec<String>)
    ensures
        texts(out@) == unknown_names(texts(names@), found@),
{
    let mut out: Vec<String> = Vec::new();
    let mut k: usize = 0;
    proof {
        assert(texts(out@) =~= Seq::<Seq<char>>::empty());
        assert(texts(names@).take(0) =~= Seq::<Seq<char>>::empty());
    }
    while k < names.len()
        invariant
            k <= names.len(),
            texts(out@) == unknown_names(texts(names@).take(k as int), found@),
        decreases names.len() - k,
    {
        let ghost before = texts(out@);
        proof {
            let seen = texts(names@).take(k + 1);
            assert(seen.drop_last() =~= texts(names@).take(k as int));
            assert(seen.last() == names@[k as int]@);
        }
        if !knows(found, &names[k]) {
            out.push(names[k].clone());
            proof {
                assert(texts(out@) =~= before.push(names@[k as int]@));
            }
        }
        k += 1;
    }
    proof {
        assert(texts(names@).take(names@.len() as int) =~= texts(names@));
    }
    out
}

/// The links that join the bookmark to each of the tags, in their order.
pub fn links_for(bookmark_id: i32, tags: &Vec<Tag>) -> (out: Vec<BookmarkTag>)
    ensures
        out.len() == tags.len(),
        forall|i: int|
            0 <= i < out.len() ==> #[trigger] out[i] == (BookmarkTag {
                bookmark_id,
                tag_id: tags[i].id,
            }),
{
    let mut out: Vec<BookmarkTag> = Vec::new();
    let mut k: usize = 0;
    while k < tags.len()
        invariant
            k <= tags.len(),
            out.len() == k,
            forall|i: int|
                0 <= i < k ==> #[trigger] out[i] == (BookmarkTag {
                    bookmark_id,
                    tag_id: tags[i].id,
                }),
        decreases tags.len() - k,
    {
        out.push(BookmarkTag { bookmark_id, tag_id: tags[k].id });
        k += 1;
    }
    out
}

} // verus!
