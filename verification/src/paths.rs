//! Paths as text. What the standard library makes of a path is named here
//! and left to it: how a path falls into components, what its parent is,
//! what joining two paths gives, where its file name ends and its extension
//! begins. These depend on the platform's path rules and on nothing else.

use vstd::prelude::*;
use std::path::Component;
use std::path::Path;

verus! {

/// The kinds of component a path is made of.
#[derive(Debug, Clone, Copy, PartialEq, Eq, Structural)]
pub enum PartKind {
    /// A drive or share, on platforms that have them.
    Prefix,
    /// The root that an absolute path starts with.
    RootDir,
    /// `.`
    CurDir,
    /// `..`
    ParentDir,
    /// A name.
    Normal,
}

/// One component of a path, with the text it was written as.
#[derive(Debug)]
pub struct PathPart {
    pub kind: PartKind,
    pub text: String,
}

impl View for PathPart {
    type V = (PartKind, Seq<char>);

    open spec fn view(&self) -> (PartKind, Seq<char>) {
        (self.kind, self.text@)
    }
}

/// The views of a list of components.
pub open spec fn parts_of(parts: Seq<PathPart>) -> Seq<(PartKind, Seq<char>)> {
    Seq::new(parts.len(), |i: int| parts[i]@)
}

/// The components of a path, as `Path::components` yields them.
pub uninterp spec fn components_of(path: Seq<char>) -> Seq<(PartKind, Seq<char>)>;

/// The path with `path` adjoined to `base`, as `Path::join` builds it.
pub uninterp spec fn joined(base: Seq<char>, path: Seq<char>) -> Seq<char>;

/// The path without its last component, as `Path::parent` gives it.
pub uninterp spec fn parent_of(path: Seq<char>) -> Option<Seq<char>>;

/// The last component of a path, as `Path::file_name` gives it.
pub uninterp spec fn file_name_of(path: Seq<char>) -> Option<Seq<char>>;

/// The extension of a path's file name, as `Path::extension` gives it.
pub uninterp spec fn extension_of(path: Seq<char>) -> Option<Seq<char>>;

/// A path's file name without its extension, as `Path::file_stem` gives it.
pub uninterp spec fn file_stem_of(path: Seq<char>) -> Option<Seq<char>>;

/// The path with its file name replaced, as `Path::with_file_name` builds it.
pub uninterp spec fn renamed(path: Seq<char>, file_name: Seq<char>) -> Seq<char>;

/// `Path::components`, each component with its kind and its text.
#[verifier::external_body]
pub(crate) fn path_components(path: &str) -> (parts: Vec<PathPart>)
    ensures
        parts_of(parts@) == components_of(path@),
{
    Path::new(path).components().map(|part| PathPart {
        kind: match part {
            Component::Prefix(_) => PartKind::Prefix,
            Component::RootDir => PartKind::RootDir,
            Component::CurDir => PartKind::CurDir,
            Component::ParentDir => PartKind::ParentDir,
            Component::Normal(_) => PartKind::Normal,
        },
        text: part.as_os_str().to_string_lossy().into_owned(),
    }).collect()
}

/// `Path::join`.
#[verifier::external_body]
pub(crate) fn path_join(base: &str, path: &str) -> (r: String)
    ensures
        r@ == joined(base@, path@),
{
    Path::new(base).join(path).to_string_lossy().into_owned()
}

/// `Path::parent`.
#[verifier::external_body]
pub(crate) fn path_parent(path: &str) -> (r: Option<String>)
    ensures
        match r {
            Some(parent) => parent_of(path@) == Some(parent@),
            None => parent_of(path@) is None,
        },
{
    Path::new(path).parent().map(|parent| parent.to_string_lossy().into_owned())
}

/// `Path::file_name`.
#[verifier::external_body]
pub(crate) fn path_file_name(path: &str) -> (r: Option<String>)
    ensures
        match r {
            Some(name) => file_name_of(path@) == Some(name@),
            None => file_name_of(path@) is None,
        },
{
    Path::new(path).file_name().map(|name| name.to_string_lossy().into_owned())
}

/// `Path::extension`.
#[verifier::external_body]
pub(crate) fn path_extension(path: &str) -> (r: Option<String>)
    ensures
        match r {
            Some(extension) => extension_of(path@) == Some(extension@),
            None => extension_of(path@) is None,
        },
{
    Path::new(path).extension().map(|extension| extension.to_string_lossy().into_owned())
}

/// `Path::file_stem`.
#[verifier::external_body]
pub(crate) fn path_file_stem(path: &str) -> (r: Option<String>)
    ensures
        match r {
            Some(stem) => file_stem_of(path@) == Some(stem@),
            None => file_stem_of(path@) is None,
        },
{
    Path::new(path).file_stem().map(|stem| stem.to_string_lossy().into_owned())
}

/// `Path::with_file_name`.
#[verifier::external_body]
pub(crate) fn path_with_file_name(path: &str, file_name: &str) -> (r: String)
    ensures
        r@ == renamed(path@, file_name@),
{
    Path::new(path).with_file_name(file_name).to_string_lossy().into_owned()
}

/// Whether two paths have the same components.
pub fn same_components(a: &str, b: &str) -> (r: bool)
    ensures
        r == (components_of(a@) == components_of(b@)),
{
    let left = path_components(a);
    let right = path_components(b);
    if left.len() != right.len() {
        proof {
            assert(parts_of(left@).len() != parts_of(right@).len());
        }
        return false;
    }
    let mut i: usize = 0;
    while i < left.len()
        invariant
            i <= left.len(),
            left.len() == right.len(),
            parts_of(left@) == components_of(a@),
            parts_of(right@) == components_of(b@),
            forall|j: int| 0 <= j < i ==> #[trigger] left[j]@ == right[j]@,
        decreases left.len() - i,
    {
        let same = left[i].kind == right[i].kind && left[i].text == right[i].text;
        if !same {
            proof {
                assert(parts_of(left@)[i as int] != parts_of(right@)[i as int]);
            }
            return false;
        }
        i += 1;
    }
    proof {
        assert(parts_of(left@) =~= parts_of(right@));
    }
    true
}

} // verus!
