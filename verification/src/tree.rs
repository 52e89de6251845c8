//! What the target tree says about a path.

use vstd::prelude::*;
use vstd::slice::slice_subrange;

use crate::paths;

verus! {

/// The id of an object, as `gix_hash` represents it. The content stays closed; ids are only
/// carried and compared.
#[verifier::external_type_specification]
#[verifier::external_body]
pub struct ExObjectId(gix_hash::ObjectId);

/// Whether two object ids are equal.
///
/// Calls `==` on `gix_hash::ObjectId`, an enum of byte arrays with a derived `PartialEq`, of
/// which the contract claims that it holds of equal ids and of no others.
#[verifier::external_body]
pub(crate) fn same_object(a: &gix_hash::ObjectId, b: &gix_hash::ObjectId) -> (r: bool)
    ensures
        r == (*a == *b),
{
    a == b
}

/// A file in a tree.
#[derive(Debug, Clone, Copy, PartialEq, Eq)]
pub struct Blob {
    pub mode: u32,
    pub oid: gix_hash::ObjectId,
}

/// The directory that a path lies in, with its trailing slash; empty for the root.
pub open spec fn directory(path: Seq<u8>) -> Seq<u8>
    decreases path.len(),
{
    if path.len() == 0 || path.last() == paths::SLASH {
        path
    } else {
        directory(path.drop_last())
    }
}

/// The directory that a path lies in, with its trailing slash; empty for the root.
pub fn directory_of(path: &[u8]) -> (r: &[u8])
    ensures
        r@ == directory(path@),
{
    let mut end: usize = path.len();
    assert(path@.take(end as int) =~= path@);
    while end > 0 && path[end - 1] != paths::SLASH
        invariant
            end <= path.len(),
            directory(path@) == directory(path@.take(end as int)),
        decreases end,
    {
        assert(path@.take(end as int).drop_last() =~= path@.take(end - 1));
        end = end - 1;
    }
    slice_subrange(path, 0, end)
}

/// A directory is a prefix of the path, and holds no part of the file's own name.
pub proof fn a_directory_leads_to_its_files(path: Seq<u8>)
    ensures
        directory(path).is_prefix_of(path),
        directory(path).len() > 0 ==> directory(path).last() == paths::SLASH,
        !path.skip(directory(path).len() as int).contains(paths::SLASH),
    decreases path.len(),
{
    if path.len() == 0 || path.last() == paths::SLASH {
        assert(path.take(path.len() as int) =~= path);
    } else {
        let start = path.drop_last();
        a_directory_leads_to_its_files(start);
        let d = directory(path);
        assert(d =~= path.take(d.len() as int));
        let name = path.skip(d.len() as int);
        assert(name =~= start.skip(d.len() as int).push(path.last()));
        if name.contains(paths::SLASH) {
            let i = choose|i: int| 0 <= i < name.len() && name[i] == paths::SLASH;
            assert(start.skip(d.len() as int)[i] == paths::SLASH);
        }
    }
}

} // verus!
