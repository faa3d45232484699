//! Paths of a registry, brought into the form they are joined in.

use vstd::prelude::*;
use crate::paths::components_of;
use crate::paths::joined;
use crate::paths::parent_of;
use crate::paths::parts_of;
use crate::paths::path_components;
use crate::paths::path_join;
use crate::paths::path_parent;
use crate::paths::PartKind;

verus! {

/// The path without its last component; a path that has no parent stays as
/// it is.
pub open spec fn popped(path: Seq<char>) -> Seq<char> {
    match parent_of(path) {
        Some(parent) => parent,
        None => path,
    }
}

/// The path that the components build up, one after the other: `.` adds
/// nothing, `..` takes the last component away again, and every other
/// component is adjoined.
pub open spec fn normalized(parts: Seq<(PartKind, Seq<char>)>) -> Seq<char>
    decreases parts.len(),
{
    if parts.len() == 0 {
        Seq::empty()
    } else {
        let before = normalized(parts.drop_last());
        match parts.last().0 {
            PartKind::CurDir => before,
            PartKind::ParentDir => popped(before),
            _ => joined(before, parts.last().1),
        }
    }
}

/// Removes the `.` components of a path and resolves its `..` components
/// against what stands before them.
pub fn normalize_path(source: &String) -> (path: String)
    ensures
        path@ == normalized(components_of(source@)),
{
    let parts = path_components(source.as_str());
    let ghost all = components_of(source@);
    let mut path = String::new();
    let mut i: usize = 0;
    proof {
        assert(all.take(0) =~= Seq::empty());
    }
    while i < parts.len()
        invariant
            i <= parts.len(),
            all == parts_of(parts@),
            path@ == normalized(all.take(i as int)),
        decreases parts.len() - i,
    {
        proof {
            let next = all.take(i + 1);
            assert(next.drop_last() =~= all.take(i as int));
            assert(next.last() == parts[i as int]@);
        }
        match parts[i].kind {
            PartKind::CurDir => {},
            PartKind::ParentDir => {
                match path_parent(path.as_str()) {
                    Some(parent) => {
                        path = parent;
                    },
                    None => {},
                }
            },
            _ => {
                path = path_join(path.as_str(), parts[i].text.as_str());
            },
        }
        i += 1;
    }
    proof {
        assert(all.take(all.len() as int) =~= all);
    }
    path
}

} // verus!
