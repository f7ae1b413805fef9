//! Where a file lies: the directory that is made before the file is opened.

use vstd::prelude::*;

verus! {

/// Whether `c` parts a path, on one platform or another.
pub open spec fn is_separator(c: char) -> bool {
    c == '/' || c == '\\'
}

/// Whether `path` starts with two separators, which name a share or a device
/// on some platforms.
pub open spec fn starts_in_share(path: Seq<char>) -> bool {
    path.len() > 1 && is_separator(path[0]) && is_separator(path[1])
}

/// Whether `path` ends in a name, by the rules of every platform: neither in a
/// separator, a drive or a dot, nor in the share that two separators start.
pub open spec fn ends_in_name(path: Seq<char>) -> bool {
    &&& path.len() > 0
    &&& !is_separator(path.last())
    &&& path.last() != ':'
    &&& path.last() != '.'
    &&& !starts_in_share(path)
}

/// Whether `name` is one part of a path by the rules of every platform: it is
/// not parted any further, and it is not the dot that stands for nothing.
pub open spec fn is_part(name: Seq<char>) -> bool {
    &&& name.len() > 0
    &&& !(name.len() == 1 && name[0] == '.')
    &&& forall|i: int| 0 <= i < name.len() ==> !is_separator(#[trigger] name[i])
}

/// Whether `name` is one part of a path and starts with no drive, by the rules
/// of every platform.
pub open spec fn is_plain(name: Seq<char>) -> bool {
    is_part(name) && !name.contains(':')
}

/// Whether `parent` is a path that ends in a part which counts, by the rules of
/// every platform: not in a separator or in a dot behind one, not in a drive,
/// and not in a share.
pub open spec fn ends_in_part(parent: Seq<char>) -> bool {
    &&& parent.len() > 0
    &&& !is_separator(parent.last())
    &&& !(parent.len() > 1 && parent.last() == '.' && is_separator(parent[parent.len() - 2]))
    &&& parent.last() != ':'
    &&& !starts_in_share(parent)
}

/// The file `name` in the directory `parent`.
pub open spec fn joined(parent: Seq<char>, name: Seq<char>) -> Seq<char> {
    parent + seq!['/'] + name
}

/// The file `name` in the root directory.
pub open spec fn in_root(name: Seq<char>) -> Seq<char> {
    seq!['/'] + name
}

/// Whether `directory` can be the one that a file at `path` lies in: what is
/// left of the path without its last part.
///
/// It is a shorter beginning of the path, and a path that ends in a name has
/// one; the empty path has none, nor has the root. The file `name` in the
/// directory `parent` lies in `parent`, a file in the root directory lies in
/// the root, and a name alone lies in the empty path.
pub open spec fn lies_in(path: Seq<char>, directory: Option<Seq<char>>) -> bool {
    &&& directory matches Some(directory) ==> directory.len() < path.len()
        && directory.is_prefix_of(path)
    &&& ends_in_name(path) ==> directory is Some
    &&& path == seq!['/'] ==> directory is None
    &&& is_plain(path) ==> directory == Some(Seq::<char>::empty())
    &&& forall|name: Seq<char>|
        path == #[trigger] in_root(name) && is_part(name) ==> directory == Some(seq!['/'])
    &&& forall|parent: Seq<char>, name: Seq<char>|
        path == #[trigger] joined(parent, name) && ends_in_part(parent) && is_part(name)
            ==> directory == Some(parent)
}

/// Whether `path` is that of the file `name` directly under `root`: the two with
/// a separator between them, but for the empty root and one that ends in a
/// separator or a drive.
pub open spec fn adjoins(root: Seq<char>, name: Seq<char>, path: Seq<char>) -> bool {
    &&& path == root + name || path == joined(root, name) || path == root + seq!['\\'] + name
    &&& ends_in_part(root) ==> path != root + name
    &&& root.len() == 0 || root.last() == '/' ==> path == root + name
}

/// Calls `std::path::Path::join`, which adjoins a path to another. A plain name
/// is neither absolute nor has it a prefix, so it is put behind the root, with
/// the platform's separator between them where the root does not end in one;
/// none is put behind the empty root or a drive.
///
/// Left open is which of the two separators it is, which differs from platform
/// to platform, and what becomes of a name that is not plain or of a root that
/// starts in a share.
#[verifier::external_body]
fn join(root: &str, name: &str) -> (path: String)
    ensures
        is_plain(name@) && !starts_in_share(root@) ==> adjoins(root@, name@, path@),
{
    std::path::Path::new(root).join(name).to_string_lossy().into_owned()
}

/// Whether `path` is what `std::path::Path::join` gave for `name` under `root`.
pub closed spec fn is_join_of(root: Seq<char>, name: Seq<char>, path: Seq<char>) -> bool {
    exists|r: &str, n: &str, given: String|
        r@ == root && n@ == name && given@ == path && #[trigger] call_ensures(join, (r, n), given)
}

/// The file `name` under `root`, as `std::path::Path::join` gives it.
pub(crate) fn under(root: &str, name: &str) -> (path: String)
    ensures
        is_join_of(root@, name@, path@),
        is_plain(name@) && !starts_in_share(root@) ==> adjoins(root@, name@, path@),
{
    let path = join(root, name);
    assert(call_ensures(join, (root, name), path));
    path
}

/// A directory that may not be there, as contracts speak of it.
pub open spec fn directory_view(directory: Option<String>) -> Option<Seq<char>> {
    match directory {
        Some(directory) => Some(directory@),
        None => None,
    }
}

/// Calls `std::path::Path::parent`, which gives a path without its final
/// component: a shorter beginning of it. There is none where the path is empty
/// or ends in a root or a prefix, which a path that ends in a name does not. A
/// relative path of one component has the empty parent, a component behind the
/// root has the root, and a component behind a slash has what stands before the
/// slash, unless that ends in what components pass over (a separator, a dot)
/// or in a prefix.
///
/// Left open is how much of the path is given where platforms differ, such as
/// behind a backslash or a drive, and where separators or dots are passed over.
#[verifier::external_body]
fn directory_of(path: &str) -> (directory: Option<String>)
    ensures
        lies_in(path@, directory_view(directory)),
{
    std::path::Path::new(path).parent().map(|p| p.to_string_lossy().into_owned())
}

/// Whether `directory` is what `std::path::Path::parent` gave for `path`.
pub closed spec fn is_parent_of(path: Seq<char>, directory: Option<Seq<char>>) -> bool {
    exists|p: &str, given: Option<String>|
        p@ == path && directory_view(given) == directory && #[trigger] call_ensures(
            directory_of,
            (p,),
            given,
        )
}

/// The directory that the file at `path` lies in, as `std::path::Path::parent`
/// gives it.
pub(crate) fn parent(path: &str) -> (directory: Option<String>)
    ensures
        is_parent_of(path@, directory_view(directory)),
        lies_in(path@, directory_view(directory)),
{
    let directory = directory_of(path);
    assert(call_ensures(directory_of, (path,), directory));
    directory
}

/// A directory is seen as it is.
pub proof fn a_directory_is_seen_as_it_is(directory: String)
    ensures
        directory_view(Some(directory)) == Some(directory@),
        directory_view(None) is None,
{
}

/// What `std::path::Path::parent` gave is a directory that the file can lie in,
/// and what `std::path::Path::join` gave for a plain name adjoins it to the root.
pub proof fn what_was_given_is_in_place(
    path: Seq<char>,
    directory: Option<Seq<char>>,
    root: Seq<char>,
    name: Seq<char>,
)
    ensures
        is_parent_of(path, directory) ==> lies_in(path, directory),
        is_join_of(root, name, path) && is_plain(name) && !starts_in_share(root) ==> adjoins(
            root,
            name,
            path,
        ),
{
}

} // verus!
