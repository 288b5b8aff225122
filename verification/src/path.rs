//! Locations in the content folder, held as their components from the
//! outermost inwards.

use vstd::prelude::*;
use vstd::string::*;
use crate::error::Error;
use crate::text::same_name;

verus! {

/// The folder under the content root that holds the huds not in use.
pub const HUDS: &'static str = "huds";

/// The content root's own folder name.
pub const CUSTOM: &'static str = "custom";

/// The file whose presence marks a folder as a hud.
pub const INFO_VDF: &'static str = "info.vdf";

/// The file under [`HUDS`] that lists the favorites.
pub const FAVORITES_TXT: &'static str = "favorites.txt";

/// How far below a folder a search for descriptors goes.
pub const SCAN_DEPTH: usize = 2;

/// `path` without its last component; the empty path stays empty.
pub open spec fn parent(path: Seq<Seq<char>>) -> Seq<Seq<char>> {
    if path.len() == 0 {
        path
    } else {
        path.drop_last()
    }
}

/// Whether the last component of `path` is `name`.
pub open spec fn ends_in(path: Seq<Seq<char>>, name: Seq<char>) -> bool {
    path.len() > 0 && path.last() == name
}

/// Whether `entry` lies in the folder `base` or below it, at most `depth`
/// levels down.
pub open spec fn lies_within(base: Seq<Seq<char>>, entry: Seq<Seq<char>>, depth: nat) -> bool {
    base.is_prefix_of(entry) && entry.len() <= base.len() + depth
}

/// Where the content root lies, seen from the program at `exe`: the folder
/// that holds the program if that folder is `custom`, the folder above it if
/// the program sits in `custom/huds`, and nowhere otherwise.
pub open spec fn content_root(exe: Seq<Seq<char>>) -> Option<Seq<Seq<char>>> {
    let dir = parent(exe);
    if ends_in(dir, HUDS@) && ends_in(parent(dir), CUSTOM@) {
        Some(parent(dir))
    } else if ends_in(dir, CUSTOM@) {
        Some(dir)
    } else {
        None
    }
}

/// Whether the last component of `path` is `name`.
pub fn path_ends_in(path: &Vec<String>, name: &str) -> (r: bool)
    ensures
        r == ends_in(path.deep_view(), name@),
{
    let n = path.len();
    if n == 0 {
        false
    } else {
        same_name(path[n - 1].as_str(), name)
    }
}

/// `path` with `name` behind it.
pub fn child(path: &Vec<String>, name: &str) -> (longer: Vec<String>)
    ensures
        longer.deep_view() == path.deep_view().push(name@),
{
    let mut longer = path.clone();
    longer.push(name.to_owned());
    assert(longer.deep_view() =~= path.deep_view().push(name@));
    longer
}

/// Whether `entry` lies in the folder `base` or below it, at most `depth`
/// levels down.
pub fn path_lies_within(base: &Vec<String>, entry: &Vec<String>, depth: usize) -> (r: bool)
    ensures
        r == lies_within(base.deep_view(), entry.deep_view(), depth as nat),
{
    if entry.len() < base.len() || entry.len() - base.len() > depth {
        return false;
    }
    let ghost outer = base.deep_view();
    let ghost inner = entry.deep_view();
    let mut i: usize = 0;
    while i < base.len()
        invariant
            i <= base.len() <= entry.len(),
            outer == base.deep_view(),
            inner == entry.deep_view(),
            forall|k: int| 0 <= k < i ==> outer[k] == inner[k],
        decreases base.len() - i,
    {
        if !same_name(base[i].as_str(), entry[i].as_str()) {
            assert(outer[i as int] != inner.subrange(0, outer.len() as int)[i as int]);
            return false;
        }
        i += 1;
    }
    assert(outer =~= inner.subrange(0, outer.len() as int));
    true
}

/// Whether two paths have the same components.
pub fn same_path(a: &Vec<String>, b: &Vec<String>) -> (r: bool)
    ensures
        r == (a.deep_view() == b.deep_view()),
{
    if a.len() != b.len() {
        return false;
    }
    let ghost left = a.deep_view();
    let ghost right = b.deep_view();
    let mut i: usize = 0;
    while i < a.len()
        invariant
            i <= a.len(),
            a.len() == b.len(),
            left == a.deep_view(),
            right == b.deep_view(),
            forall|k: int| 0 <= k < i ==> left[k] == right[k],
        decreases a.len() - i,
    {
        if !same_name(a[i].as_str(), b[i].as_str()) {
            assert(left[i as int] != right[i as int]);
            return false;
        }
        i += 1;
    }
    assert(left =~= right);
    true
}

/// The content root for the program at `exe`.
pub fn custom_dir(exe: Vec<String>) -> (root: Result<Vec<String>, Error>)
    ensures
        match content_root(exe.deep_view()) {
            Some(dir) => root is Ok && root->Ok_0.deep_view() == dir,
            None => root == Err::<Vec<String>, Error>(Error::Layout),
        },
{
    let mut dir = exe;
    dir.pop();
    assert(dir.deep_view() =~= parent(exe.deep_view()));
    if path_ends_in(&dir, HUDS) {
        let ghost inner = dir.deep_view();
        dir.pop();
        assert(dir.deep_view() =~= parent(inner));
        if path_ends_in(&dir, CUSTOM) {
            return Ok(dir);
        }
        proof {
            reveal_strlit("huds");
            reveal_strlit("custom");
            assert(HUDS@.len() != CUSTOM@.len());
        }
        return Err(Error::Layout);
    }
    if path_ends_in(&dir, CUSTOM) {
        Ok(dir)
    } else {
        Err(Error::Layout)
    }
}

} // verus!
