//! Folder paths as the store keeps them, the folders above a folder, and
//! the folders directly inside one.
use vstd::prelude::*;
use vstd::string::StringExecFns;
use crate::api::{Error, ErrorView};
use crate::matching::{below_pattern, like_escaped};
use crate::store::{Folder, FolderView};
use crate::text::{
    has_prefix, leading, skip_leading, skip_trailing, starts_with, strip_end, strip_start,
    texts, to_chars, to_string, trailing, CharClass,
};

verus! {

/// `s` without its leading and its closing slashes.
pub open spec fn unslashed(s: Seq<char>) -> Seq<char> {
    strip_end(strip_start(s, CharClass::Slash), CharClass::Slash)
}

/// The path under which a folder is stored: a `/`, and the path as given
/// without leading and closing slashes.
pub open spec fn normalized(path: Seq<char>) -> Seq<char> {
    seq!['/'] + unslashed(path)
}

/// The bounds of `v` without its leading and its closing slashes.
fn unslashed_bounds(v: &Vec<char>) -> (b: (usize, usize))
    ensures
        b.0 <= b.1 <= v.len(),
        v@.subrange(b.0 as int, b.1 as int) == unslashed(v@),
{
    let a = skip_leading(v, 0, v.len(), CharClass::Slash);
    let z = skip_trailing(v, a, v.len(), CharClass::Slash);
    proof {
        assert(v@.subrange(0, v.len() as int) == v@);
        let rest = v@.subrange(a as int, v.len() as int);
        assert(rest == strip_start(v@, CharClass::Slash));
        assert(v@.subrange(a as int, z as int) == rest.take(z - a));
    }
    (a, z)
}

/// The path under which the folder `path` is stored.
pub fn normalize_folder_path(path: &str) -> (out: String)
    ensures
        out@ == normalized(path@),
{
    let v = to_chars(path);
    let (a, z) = unslashed_bounds(&v);
    let inner = to_string(&v, a, z);
    let mut out = "/".to_owned();
    out.append(inner.as_str());
    proof {
        reveal_strlit("/");
        assert("/"@ =~= seq!['/']);
    }
    out
}

/// The folder `t`, given without slashes around it, and the folders above
/// it, the nearest first, each as an absolute path. The folder above is
/// what stands before the last `/`; the root is not among them.
pub open spec fn lineage(t: Seq<char>) -> Seq<Seq<char>>
    decreases t.len(),
{
    if t.len() == 0 {
        Seq::empty()
    } else {
        let last = trailing(t, CharClass::Unslashed);
        if last < t.len() {
            seq![seq!['/'] + t] + lineage(t.take(t.len() - last - 1))
        } else {
            seq![seq!['/'] + t]
        }
    }
}

/// The paths of the folder `path` and of the folders above it, the nearest
/// first.
pub fn ancestor_paths(path: &str) -> (out: Vec<String>)
    ensures
        texts(out@) == lineage(unslashed(path@)),
{
    let v = to_chars(path);
    let (a, z) = unslashed_bounds(&v);
    let mut out: Vec<String> = Vec::new();
    let mut end: usize = z;
    proof {
        assert(texts(out@) =~= Seq::<Seq<char>>::empty());
    }
    while end > a
        invariant
            a <= end <= z <= v.len(),
            texts(out@) + lineage(v@.subrange(a as int, end as int)) == lineage(
                v@.subrange(a as int, z as int),
            ),
        decreases end,
    {
        let ghost t = v@.subrange(a as int, end as int);
        let ghost before = texts(out@);
        let mut one = "/".to_owned();
        let inner = to_string(&v, a, end);
        one.append(inner.as_str());
        proof {
            reveal_strlit("/");
            assert("/"@ =~= seq!['/']);
        }
        out.push(one);
        let start = skip_trailing(&v, a, end, CharClass::Unslashed);
        proof {
            assert(texts(out@) =~= before.push(seq!['/'] + t));
        }
        if start == a {
            proof {
                assert(lineage(t) =~= seq![seq!['/'] + t]);
                assert(before.push(seq!['/'] + t) =~= before + lineage(t));
                assert(texts(out@) + Seq::<Seq<char>>::empty() =~= texts(out@));
            }
            end = a;
            proof {
                assert(v@.subrange(a as int, a as int).len() == 0);
            }
        } else {
            proof {
                let parent = t.take(t.len() - trailing(t, CharClass::Unslashed) - 1);
                assert(parent =~= v@.subrange(a as int, start - 1));
                assert(before.push(seq!['/'] + t) + lineage(parent) =~= before + (seq![
                    seq!['/'] + t,
                ] + lineage(parent)));
            }
            end = start - 1;
        }
    }
    proof {
        assert(v@.subrange(a as int, end as int).len() == 0);
        assert(texts(out@) + Seq::<Seq<char>>::empty() =~= texts(out@));
    }
    out
}

/// Whether the folder at `path` lies directly inside the folder `cwd`: it
/// is `cwd` without closing slashes, a `/`, and a name without a `/`.
pub open spec fn is_child(path: Seq<char>, cwd: Seq<char>) -> bool {
    let above = strip_end(cwd, CharClass::Slash) + seq!['/'];
    starts_with(path, above) && leading(path.skip(above.len() as int), CharClass::Unslashed)
        == path.len() - above.len()
}

/// Decides whether the folder at `path` lies directly inside `cwd`.
pub fn lies_directly_in(path: &str, cwd: &str) -> (r: bool)
    ensures
        r == is_child(path@, cwd@),
{
    let p = to_chars(path);
    let c = to_chars(cwd);
    let end = skip_trailing(&c, 0, c.len(), CharClass::Slash);
    let mut above: Vec<char> = Vec::new();
    crate::text::push_range(&mut above, &c, 0, end);
    above.push('/');
    proof {
        assert(c@.subrange(0, c.len() as int) == c@);
        assert(above@ =~= strip_end(cwd@, CharClass::Slash) + seq!['/']);
    }
    if !has_prefix(&p, &above) {
        return false;
    }
    let name_end = skip_leading(&p, above.len(), p.len(), CharClass::Unslashed);
    name_end == p.len()
}

/// The `LIKE` pattern of the paths below the folder `cwd`, for a store that
/// loads the folders inside it.
pub fn children_pattern(cwd: &str) -> (pattern: String)
    ensures
        pattern@ == like_escaped(strip_end(cwd@, CharClass::Slash)) + seq!['/', '%'],
{
    let c = to_chars(cwd);
    let end = skip_trailing(&c, 0, c.len(), CharClass::Slash);
    proof {
        assert(c@.subrange(0, c.len() as int) == c@);
    }
    below_pattern(to_string(&c, 0, end).as_str())
}

/// The values of a sequence of folders.
pub open spec fn folder_views(v: Seq<Folder>) -> Seq<FolderView> {
    Seq::new(v.len(), |i: int| v[i]@)
}

/// The folders among `folders` that lie directly inside `cwd`, in their
/// order.
pub open spec fn children(folders: Seq<FolderView>, cwd: Seq<char>) -> Seq<FolderView>
    decreases folders.len(),
{
    if folders.len() == 0 {
        Seq::empty()
    } else if is_child(folders.last().path, cwd) {
        children(folders.drop_last(), cwd).push(folders.last())
    } else {
        children(folders.drop_last(), cwd)
    }
}

/// Lists the folders directly inside `cwd`.
pub fn list_folders(folders: &Vec<Folder>, cwd: &str) -> (out: Vec<Folder>)
    ensures
        folder_views(out@) == children(folder_views(folders@), cwd@),
{
    let mut out: Vec<Folder> = Vec::new();
    let mut k: usize = 0;
    proof {
        assert(folder_views(out@) =~= Seq::<FolderView>::empty());
        assert(folder_views(folders@).take(0) =~= Seq::<FolderView>::empty());
    }
    while k < folders.len()
        invariant
            k <= folders.len(),
            folder_views(out@) == children(folder_views(folders@).take(k as int), cwd@),
        decreases folders.len() - k,
    {
        let ghost before = folder_views(out@);
        proof {
            let seen = folder_views(folders@).take(k + 1);
            assert(seen.drop_last() =~= folder_views(folders@).take(k as int));
            assert(seen.last() == folders@[k as int]@);
        }
        if lies_directly_in(folders[k].path.as_str(), cwd) {
            out.push(folders[k].clone());
            proof {
                assert(folder_views(out@) =~= before.push(folders@[k as int]@));
            }
        }
        k += 1;
    }
    proof {
        assert(folder_views(folders@).take(folders@.len() as int) =~= folder_views(folders@));
    }
    out
}

/// What is decided for a new folder from what the store holds at its path
/// and at the paths above it, the nearest first: a folder that is there
/// already is a bad request that names its path, a folder missing above it
/// is not found.
pub open spec fn new_folder_decision(found: Seq<Option<FolderView>>) -> Result<(), ErrorView> {
    if found.len() > 0 && found[0] is Some {
        Err(ErrorView::BadRequest("Folder already exists: "@ + found[0]->0.path))
    } else if exists|i: int| 1 <= i < found.len() && #[trigger] found[i] is None {
        Err(ErrorView::NotFound("Parent folder does not exist"@))
    } else {
        Ok(())
    }
}

/// The values of a sequence of optional folders.
pub open spec fn optional_folder_views(v: Seq<Option<Folder>>) -> Seq<Option<FolderView>> {
    Seq::new(
        v.len(),
        |i: int|
            match v[i] {
                Some(f) => Some(f@),
                None => None,
            },
    )
}

/// Decides whether a folder can be created, from what the store holds at
/// its path and at the paths above it.
pub fn check_new_folder(found: &Vec<Option<Folder>>) -> (r: Result<(), Error>)
    ensures
        match new_folder_decision(optional_folder_views(found@)) {
            Ok(_) => r is Ok,
            Err(e) => r matches Err(failed) && failed@ == e,
        },
{
    if found.len() > 0 {
        if let Some(folder) = &found[0] {
            let mut text = "Folder already exists: ".to_owned();
            text.append(folder.path.as_str());
            return Err(Error::BadRequest(text));
        }
    }
    proof {
        if found.len() > 0 {
            assert(optional_folder_views(found@)[0] is None);
        }
    }
    let mut i: usize = 1;
    while i < found.len()
        invariant
            1 <= i,
            !(found.len() > 0 && optional_folder_views(found@)[0] is Some),
            forall|j: int| 1 <= j < i && j < found.len() ==> !(
            #[trigger] optional_folder_views(found@)[j] is None),
        decreases found.len() - i,
    {
        if found[i].is_none() {
            proof {
                assert(optional_folder_views(found@)[i as int] is None);
            }
            return Err(Error::NotFound("Parent folder does not exist".to_owned()));
        }
        i += 1;
    }
    Ok(())
}

} // verus!
