//! Paths as byte strings, read the way the platform reads them.
//!
//! `/` stands between the parts of a path. On Windows `\` does so as well, and a path can
//! start with a prefix: a drive (`C:`), a share (`\\server\share`), a device (`\\.\name`) or
//! a verbatim prefix (`\\?\C:`, `\\?\UNC\server\share`, `\\?\name`). Behind a verbatim prefix
//! only `\` separates, and `.` is a name.

use vstd::prelude::*;
use vstd::slice::slice_subrange;
use vstd::slice::slice_to_vec;
use vstd::string::*;

use crate::bytes;

verus! {

/// `/`
pub const SLASH: u8 = 0x2f;

/// `\`
pub const BACKSLASH: u8 = 0x5c;

/// `?`
pub const QUESTION: u8 = 0x3f;

/// `.`
pub const DOT: u8 = 0x2e;

/// `:`
pub const COLON: u8 = 0x3a;

/// Whether a byte is an ASCII letter.
pub open spec fn is_letter(byte: u8) -> bool {
    0x41 <= byte <= 0x5a || 0x61 <= byte <= 0x7a
}

/// The upper-case form of an ASCII letter.
pub open spec fn upper(byte: u8) -> u8 {
    if 0x61 <= byte <= 0x7a {
        (byte - 0x20) as u8
    } else {
        byte
    }
}

/// Whether a byte stands between the parts of a path.
pub open spec fn is_separator(byte: u8, windows: bool) -> bool {
    byte == SLASH || windows && byte == BACKSLASH
}

/// The separator to put where one is needed.
pub open spec fn main_separator(windows: bool) -> u8 {
    if windows {
        BACKSLASH
    } else {
        SLASH
    }
}

/// A path with every separator spelled `/`.
pub open spec fn slashed(path: Seq<u8>, windows: bool) -> Seq<u8> {
    path.map_values(
        |byte: u8|
            if is_separator(byte, windows) {
                SLASH
            } else {
                byte
            },
    )
}

/// Whether a path starts with a drive.
pub open spec fn has_drive(path: Seq<u8>) -> bool {
    path.len() >= 2 && is_letter(path[0]) && path[1] == COLON
}

/// How long the share is that a path with its separators spelled `/` starts with: two
/// separators, the name of a server, a separator and the name of the share.
pub open spec fn share_length(path: Seq<u8>) -> int {
    if path.len() > 2 && path[0] == SLASH && path[1] == SLASH {
        let rest = path.skip(2);
        let server = bytes::first_index(rest, SLASH);
        if 0 < server < rest.len() {
            let share = bytes::first_index(rest.skip(server + 1), SLASH);
            if share > 0 {
                2 + server + 1 + share
            } else {
                0
            }
        } else {
            0
        }
    } else {
        0
    }
}

/// How long the device is that a path with its separators spelled `/` starts with: a `.`
/// between separators, and a name.
pub open spec fn device_length(path: Seq<u8>) -> int {
    if path.len() >= 4 && path[0] == SLASH && path[1] == SLASH && path[2] == DOT && path[3]
        == SLASH {
        4 + bytes::first_index(path.skip(4), SLASH)
    } else {
        0
    }
}

/// Whether a path is verbatim: it starts with `\\?\`, spelled like that and not otherwise.
pub open spec fn verbatim(path: Seq<u8>, windows: bool) -> bool {
    windows && path.len() >= 4 && path[0] == BACKSLASH && path[1] == BACKSLASH && path[2]
        == QUESTION && path[3] == BACKSLASH
}

/// Whether a verbatim path starts with a share.
pub open spec fn verbatim_share(path: Seq<u8>) -> bool {
    path.len() >= 8 && path.subrange(4, 7) == "UNC".spec_bytes() && is_separator(path[7], true)
}

/// Whether a verbatim path starts with a drive.
pub open spec fn verbatim_drive(path: Seq<u8>) -> bool {
    has_drive(path.skip(4)) && (path.len() > 6 ==> is_separator(path[6], true))
}

/// How long the prefix of a verbatim path is.
pub open spec fn verbatim_length(path: Seq<u8>) -> int {
    if verbatim_share(path) {
        let rest = path.skip(8);
        let server = bytes::first_index(rest, BACKSLASH);
        let share = if server < rest.len() {
            bytes::first_index(rest.skip(server + 1), BACKSLASH)
        } else {
            0
        };
        if share > 0 {
            8 + server + 1 + share
        } else {
            8 + server
        }
    } else if verbatim_drive(path) {
        6
    } else {
        4 + bytes::first_index(path.skip(4), BACKSLASH)
    }
}

/// How long the prefix is that a path starts with.
pub open spec fn prefix_length(path: Seq<u8>, windows: bool) -> int {
    if !windows {
        0
    } else if verbatim(path, windows) {
        verbatim_length(path)
    } else if has_drive(path) {
        2
    } else if device_length(slashed(path, windows)) > 0 {
        device_length(slashed(path, windows))
    } else {
        share_length(slashed(path, windows))
    }
}

/// The prefix that a path starts with, in the one spelling that all its spellings share: the
/// letter of a drive in upper case, and of the separators that can be spelled in two ways
/// those of a verbatim path as `\` and the others as `/`.
pub open spec fn prefix(path: Seq<u8>, windows: bool) -> Seq<u8> {
    let written = path.take(prefix_length(path, windows));
    if verbatim(path, windows) {
        if verbatim_share(path) {
            written.update(7, BACKSLASH)
        } else if verbatim_drive(path) {
            written.update(4, upper(path[4]))
        } else {
            written
        }
    } else if windows && has_drive(path) {
        written.update(0, upper(path[0]))
    } else {
        slashed(written, windows)
    }
}

/// Whether a separator follows the prefix of a path.
pub open spec fn root_written(path: Seq<u8>, windows: bool) -> bool {
    let n = prefix_length(path, windows);
    n < path.len() && is_separator(path[n], windows)
}

/// Whether a path starts at a root. A share and a device have one though none is written.
pub open spec fn rooted(path: Seq<u8>, windows: bool) -> bool {
    root_written(path, windows) || prefix_length(path, windows) > 2 && !verbatim(path, windows)
}

/// Whether a path means the same wherever it is read.
pub open spec fn absolute(path: Seq<u8>, windows: bool) -> bool {
    if windows {
        verbatim(path, windows) || prefix_length(path, windows) > 0 && rooted(path, windows)
    } else {
        rooted(path, windows)
    }
}

/// The names among the pieces of a path: not empty, and not `.` unless that is a name.
pub open spec fn names(pieces: Seq<Seq<u8>>, dots: bool) -> Seq<Seq<u8>>
    decreases pieces.len(),
{
    if pieces.len() == 0 {
        Seq::empty()
    } else if pieces.last().len() == 0 || !dots && pieces.last() == ".".spec_bytes() {
        names(pieces.drop_last(), dots)
    } else {
        names(pieces.drop_last(), dots).push(pieces.last())
    }
}

/// What a path says: where it starts, and the names on the way.
pub struct Parts {
    pub prefix: Seq<u8>,
    /// It starts at a root.
    pub rooted: bool,
    /// It starts with a `.`, which says that it is relative.
    pub here: bool,
    pub names: Seq<Seq<u8>>,
}

/// A path behind its prefix and the root that is written there.
pub open spec fn body(path: Seq<u8>, windows: bool) -> Seq<u8> {
    let n = prefix_length(path, windows);
    if root_written(path, windows) {
        path.skip(n + 1)
    } else {
        path.skip(n)
    }
}

/// The pieces between the separators of a path, behind its prefix and root.
pub open spec fn pieces(path: Seq<u8>, windows: bool) -> Seq<Seq<u8>> {
    if verbatim(path, windows) {
        bytes::split_on(body(path, windows), BACKSLASH)
    } else {
        bytes::split_on(slashed(body(path, windows), windows), SLASH)
    }
}

/// The parts of a path. Repeated and trailing separators and a `.` after the start say
/// nothing, save that a verbatim path takes `.` for a name; `..` is a name like any other.
pub open spec fn parts(path: Seq<u8>, windows: bool) -> Parts {
    let pieces = pieces(path, windows);
    Parts {
        prefix: prefix(path, windows),
        rooted: rooted(path, windows),
        here: prefix_length(path, windows) == 0 && !rooted(path, windows) && pieces[0]
            == ".".spec_bytes(),
        names: names(pieces, verbatim(path, windows)),
    }
}

/// The names that lead from where some lead to where the steps go from there. A `..` takes
/// back the name before it, if there is one that is not itself `.` or `..`.
pub open spec fn walked(names: Seq<Seq<u8>>, steps: Seq<Seq<u8>>) -> Seq<Seq<u8>>
    decreases steps.len(),
{
    if steps.len() == 0 {
        names
    } else {
        let so_far = walked(names, steps.drop_last());
        if steps.last() != "..".spec_bytes() {
            so_far.push(steps.last())
        } else if so_far.len() > 0 && so_far.last() != ".".spec_bytes() && so_far.last()
            != "..".spec_bytes() {
            so_far.drop_last()
        } else {
            so_far
        }
    }
}

/// Names behind a start, each with a `\` before it.
pub open spec fn followed(start: Seq<u8>, names: Seq<Seq<u8>>) -> Seq<u8>
    decreases names.len(),
{
    if names.len() == 0 {
        start
    } else {
        followed(start, names.drop_last()).push(BACKSLASH) + names.last()
    }
}

/// `path`, which has no prefix, as seen from a verbatim `base`: `.` and `..` are worked out,
/// since a verbatim path would take them for names.
pub open spec fn joined_verbatim(base: Seq<u8>, path: Seq<u8>) -> Seq<u8> {
    let start = base.take(prefix_length(base, true));
    let from = if rooted(path, true) {
        Seq::empty()
    } else {
        parts(base, true).names
    };
    let all = walked(from, parts(path, true).names);
    if all.len() == 0 && (rooted(base, true) || rooted(path, true)) {
        start.push(BACKSLASH)
    } else {
        followed(start, all)
    }
}

/// `path` as seen from `base`: one with a prefix, or without one but with a root where there
/// are no prefixes, stays what it is, and one with a root alone keeps the prefix of `base`.
pub open spec fn joined(base: Seq<u8>, path: Seq<u8>, windows: bool) -> Seq<u8> {
    if prefix_length(path, windows) > 0 {
        path
    } else if verbatim(base, windows) && path.len() > 0 {
        joined_verbatim(base, path)
    } else if rooted(path, windows) {
        base.take(prefix_length(base, windows)) + path
    } else if base.len() == 0 || is_separator(base.last(), windows) || windows && has_drive(base)
        && base.len() == 2 {
        base + path
    } else {
        base.push(main_separator(windows)) + path
    }
}

/// The names of a path.
fn names_of(pieces: &[Vec<u8>], dots: bool) -> (r: Vec<Vec<u8>>)
    ensures
        bytes::views(r@) == names(bytes::views(pieces@), dots),
{
    let ghost all = bytes::views(pieces@);
    let mut found: Vec<Vec<u8>> = Vec::new();
    let mut i: usize = 0;
    assert(bytes::views(found@) =~= names(all.take(0), dots));
    while i < pieces.len()
        invariant
            i <= pieces.len(),
            all == bytes::views(pieces@),
            bytes::views(found@) == names(all.take(i as int), dots),
        decreases pieces.len() - i,
    {
        let piece = pieces[i].as_slice();
        assert(all.take(i + 1).drop_last() =~= all.take(i as int));
        assert(all.take(i + 1).last() == piece@);
        if piece.len() > 0 && (dots || !bytes::is_word(piece, ".")) {
            let ghost prior = found@;
            found.push(slice_to_vec(piece));
            proof {
                bytes::lemma_views_push(prior, found@.last());
            }
        }
        i = i + 1;
    }
    assert(all.take(i as int) =~= all);
    found
}

/// Whether a byte stands between the parts of a path.
fn separates(byte: u8, windows: bool) -> (r: bool)
    ensures
        r == is_separator(byte, windows),
{
    byte == SLASH || windows && byte == BACKSLASH
}

/// A path with every separator spelled `/`.
fn with_slashes(path: &[u8], windows: bool) -> (r: Vec<u8>)
    ensures
        r@ == slashed(path@, windows),
{
    let mut flat: Vec<u8> = Vec::new();
    let mut i: usize = 0;
    while i < path.len()
        invariant
            i <= path.len(),
            flat.len() == i,
            forall|j: int| 0 <= j < i ==> #[trigger] flat@[j] == slashed(path@, windows)[j],
        decreases path.len() - i,
    {
        flat.push(
            if separates(path[i], windows) {
                SLASH
            } else {
                path[i]
            },
        );
        i = i + 1;
    }
    assert(flat@ =~= slashed(path@, windows));
    flat
}

/// Whether a path starts with a drive.
fn starts_with_drive(path: &[u8]) -> (r: bool)
    ensures
        r == has_drive(path@),
{
    path.len() >= 2 && path[1] == COLON && (0x41 <= path[0] && path[0] <= 0x5a || 0x61 <= path[0]
        && path[0] <= 0x7a)
}

/// How long the share is that a path with its separators spelled `/` starts with.
fn length_of_share(path: &[u8]) -> (n: usize)
    ensures
        n == share_length(path@),
        n <= path.len(),
{
    if path.len() <= 2 || path[0] != SLASH || path[1] != SLASH {
        return 0;
    }
    let rest = slice_subrange(path, 2, path.len());
    let server = bytes::position_of(rest, SLASH);
    assert(rest@ =~= path@.skip(2));
    proof {
        bytes::lemma_first_index(rest@, SLASH);
    }
    if server == 0 || server >= rest.len() {
        return 0;
    }
    let more = slice_subrange(rest, server + 1, rest.len());
    assert(more@ =~= rest@.skip(server + 1));
    proof {
        bytes::lemma_first_index(more@, SLASH);
    }
    let share = bytes::position_of(more, SLASH);
    if share == 0 {
        return 0;
    }
    2 + server + 1 + share
}

/// How long the device is that a path with its separators spelled `/` starts with.
fn length_of_device(path: &[u8]) -> (n: usize)
    ensures
        n == device_length(path@),
        n <= path.len(),
{
    if path.len() < 4 || path[0] != SLASH || path[1] != SLASH || path[2] != DOT || path[3]
        != SLASH {
        return 0;
    }
    let rest = slice_subrange(path, 4, path.len());
    assert(rest@ =~= path@.skip(4));
    proof {
        bytes::lemma_first_index(rest@, SLASH);
    }
    4 + bytes::position_of(rest, SLASH)
}

/// Whether a path is verbatim.
fn is_verbatim(path: &[u8], windows: bool) -> (r: bool)
    ensures
        r == verbatim(path@, windows),
{
    windows && path.len() >= 4 && path[0] == BACKSLASH && path[1] == BACKSLASH && path[2]
        == QUESTION && path[3] == BACKSLASH
}

/// Whether a verbatim path starts with a share.
fn is_verbatim_share(path: &[u8]) -> (r: bool)
    ensures
        r == verbatim_share(path@),
{
    path.len() >= 8 && bytes::is_word(slice_subrange(path, 4, 7), "UNC") && separates(path[7], true)
}

/// Whether a verbatim path starts with a drive.
fn is_verbatim_drive(path: &[u8]) -> (r: bool)
    requires
        path.len() >= 4,
    ensures
        r == verbatim_drive(path@),
{
    let rest = slice_subrange(path, 4, path.len());
    assert(rest@ =~= path@.skip(4));
    starts_with_drive(rest) && (path.len() <= 6 || separates(path[6], true))
}

/// How long the prefix of a verbatim path is.
fn length_of_verbatim(path: &[u8]) -> (n: usize)
    requires
        verbatim(path@, true),
    ensures
        n == verbatim_length(path@),
        n <= path.len(),
{
    if is_verbatim_share(path) {
        let rest = slice_subrange(path, 8, path.len());
        assert(rest@ =~= path@.skip(8));
        proof {
            bytes::lemma_first_index(rest@, BACKSLASH);
        }
        let server = bytes::position_of(rest, BACKSLASH);
        if server >= rest.len() {
            return 8 + server;
        }
        let more = slice_subrange(rest, server + 1, rest.len());
        assert(more@ =~= rest@.skip(server + 1));
        proof {
            bytes::lemma_first_index(more@, BACKSLASH);
        }
        let share = bytes::position_of(more, BACKSLASH);
        return if share > 0 {
            8 + server + 1 + share
        } else {
            8 + server
        };
    }
    if is_verbatim_drive(path) {
        return 6;
    }
    let rest = slice_subrange(path, 4, path.len());
    assert(rest@ =~= path@.skip(4));
    proof {
        bytes::lemma_first_index(rest@, BACKSLASH);
    }
    4 + bytes::position_of(rest, BACKSLASH)
}

/// The prefix of a verbatim path that starts with a share goes past the word for one.
proof fn lemma_verbatim_share_length(path: Seq<u8>)
    requires
        verbatim_share(path),
    ensures
        verbatim_length(path) >= 8,
{
    bytes::lemma_first_index(path.skip(8), BACKSLASH);
}

/// How long the prefix is that a path starts with.
fn length_of_prefix(path: &[u8], windows: bool) -> (n: usize)
    ensures
        n == prefix_length(path@, windows),
        n <= path.len(),
{
    if !windows {
        return 0;
    }
    if is_verbatim(path, windows) {
        return length_of_verbatim(path);
    }
    if starts_with_drive(path) {
        return 2;
    }
    let flat = with_slashes(path, windows);
    let device = length_of_device(flat.as_slice());
    if device > 0 {
        return device;
    }
    length_of_share(flat.as_slice())
}

/// The upper-case form of an ASCII letter.
fn in_upper_case(byte: u8) -> (r: u8)
    ensures
        r == upper(byte),
{
    if 0x61 <= byte && byte <= 0x7a {
        byte - 0x20
    } else {
        byte
    }
}

/// The prefix that a path starts with, in the one spelling that all its spellings share.
fn prefix_of(path: &[u8], windows: bool) -> (r: Vec<u8>)
    ensures
        r@ == prefix(path@, windows),
{
    let n = length_of_prefix(path, windows);
    let written = slice_subrange(path, 0, n);
    assert(written@ =~= path@.take(n as int));
    let mut prefix = slice_to_vec(written);
    if is_verbatim(path, windows) {
        if is_verbatim_share(path) {
            proof {
                lemma_verbatim_share_length(path@);
            }
            prefix.set(7, BACKSLASH);
        } else if is_verbatim_drive(path) {
            prefix.set(4, in_upper_case(path[4]));
        }
        return prefix;
    }
    if windows && starts_with_drive(path) {
        prefix.set(0, in_upper_case(path[0]));
        return prefix;
    }
    with_slashes(written, windows)
}

/// Whether a separator follows the prefix of a path.
fn is_root_written(path: &[u8], windows: bool) -> (r: bool)
    ensures
        r == root_written(path@, windows),
{
    let n = length_of_prefix(path, windows);
    n < path.len() && separates(path[n], windows)
}

/// Whether a path starts at a root.
pub fn is_rooted(path: &[u8], windows: bool) -> (r: bool)
    ensures
        r == rooted(path@, windows),
{
    is_root_written(path, windows) || length_of_prefix(path, windows) > 2 && !is_verbatim(
        path,
        windows,
    )
}

/// The pieces between the separators of a path, behind its prefix and root.
fn pieces_of(path: &[u8], windows: bool) -> (r: Vec<Vec<u8>>)
    ensures
        bytes::views(r@) == pieces(path@, windows),
        r.len() > 0,
{
    let n = length_of_prefix(path, windows);
    let start: usize = if is_root_written(path, windows) {
        n + 1
    } else {
        n
    };
    let rest = slice_subrange(path, start, path.len());
    assert(rest@ =~= body(path@, windows));
    if is_verbatim(path, windows) {
        proof {
            bytes::split_then_join(rest@, BACKSLASH);
        }
        bytes::split(rest, BACKSLASH)
    } else {
        let flat = with_slashes(rest, windows);
        proof {
            bytes::split_then_join(flat@, SLASH);
        }
        bytes::split(flat.as_slice(), SLASH)
    }
}

/// Whether a path starts with a `.`, which says that it is relative.
fn is_here(path: &[u8], windows: bool) -> (r: bool)
    ensures
        r == parts(path@, windows).here,
{
    let pieces = pieces_of(path, windows);
    assert(bytes::views(pieces@)[0] == pieces@[0]@);
    length_of_prefix(path, windows) == 0 && !is_rooted(path, windows) && bytes::is_word(
        pieces[0].as_slice(),
        ".",
    )
}

/// The names on the way of a path.
fn names_in(path: &[u8], windows: bool) -> (r: Vec<Vec<u8>>)
    ensures
        bytes::views(r@) == parts(path@, windows).names,
{
    let pieces = pieces_of(path, windows);
    names_of(pieces.as_slice(), is_verbatim(path, windows))
}

/// Whether two paths are the same, part by part.
pub fn same_path(a: &[u8], b: &[u8], windows: bool) -> (r: bool)
    ensures
        r == (parts(a@, windows) == parts(b@, windows)),
{
    let left_names = names_in(a, windows);
    let right_names = names_in(b, windows);
    let left_prefix = prefix_of(a, windows);
    let right_prefix = prefix_of(b, windows);
    bytes::same_bytes(left_prefix.as_slice(), right_prefix.as_slice()) && is_rooted(a, windows)
        == is_rooted(b, windows) && is_here(a, windows) == is_here(b, windows) && bytes::same_list(
        left_names.as_slice(),
        right_names.as_slice(),
    )
}

/// Takes steps from where names lead.
fn walk(names: Vec<Vec<u8>>, steps: &[Vec<u8>]) -> (r: Vec<Vec<u8>>)
    ensures
        bytes::views(r@) == walked(bytes::views(names@), bytes::views(steps@)),
{
    let ghost from = bytes::views(names@);
    let ghost all = bytes::views(steps@);
    let mut found = names;
    let mut i: usize = 0;
    assert(all.take(0) =~= Seq::<Seq<u8>>::empty());
    while i < steps.len()
        invariant
            i <= steps.len(),
            all == bytes::views(steps@),
            bytes::views(found@) == walked(from, all.take(i as int)),
        decreases steps.len() - i,
    {
        let step = steps[i].as_slice();
        let ghost prior = found@;
        assert(all.take(i + 1).drop_last() =~= all.take(i as int));
        assert(all.take(i + 1).last() == step@);
        if !bytes::is_word(step, "..") {
            found.push(slice_to_vec(step));
            proof {
                bytes::lemma_views_push(prior, found@.last());
            }
        } else if found.len() > 0 {
            assert(bytes::views(prior).last() == prior.last()@);
            let last = found[found.len() - 1].as_slice();
            if !bytes::is_word(last, ".") && !bytes::is_word(last, "..") {
                let _ = found.pop();
                assert(bytes::views(found@) =~= bytes::views(prior).drop_last());
            }
        }
        i = i + 1;
    }
    assert(all.take(i as int) =~= all);
    found
}

/// Puts names behind a start, each with a `\` before it.
fn follow(start: Vec<u8>, names: &[Vec<u8>]) -> (r: Vec<u8>)
    ensures
        r@ == followed(start@, bytes::views(names@)),
{
    let ghost all = bytes::views(names@);
    let ghost from = start@;
    let mut whole = start;
    let mut i: usize = 0;
    assert(all.take(0) =~= Seq::<Seq<u8>>::empty());
    while i < names.len()
        invariant
            i <= names.len(),
            all == bytes::views(names@),
            whole@ == followed(from, all.take(i as int)),
        decreases names.len() - i,
    {
        assert(all.take(i + 1).drop_last() =~= all.take(i as int));
        assert(all.take(i + 1).last() == names@[i as int]@);
        let mut name = slice_to_vec(names[i].as_slice());
        whole.push(BACKSLASH);
        whole.append(&mut name);
        i = i + 1;
    }
    assert(all.take(i as int) =~= all);
    whole
}

/// `path`, which has no prefix, as seen from a verbatim `base`.
fn join_verbatim(base: &[u8], path: &[u8]) -> (r: Vec<u8>)
    ensures
        r@ == joined_verbatim(base@, path@),
{
    let mut start = slice_to_vec(slice_subrange(base, 0, length_of_prefix(base, true)));
    assert(start@ =~= base@.take(prefix_length(base@, true)));
    let over = is_rooted(path, true);
    let from: Vec<Vec<u8>> = if over {
        Vec::new()
    } else {
        names_in(base, true)
    };
    assert(over ==> bytes::views(from@) =~= Seq::<Seq<u8>>::empty());
    let steps = names_in(path, true);
    let all = walk(from, steps.as_slice());
    if all.len() == 0 && (over || is_rooted(base, true)) {
        start.push(BACKSLASH);
        start
    } else {
        follow(start, all.as_slice())
    }
}

/// `path` as seen from `base`.
pub fn join(base: &[u8], path: &[u8], windows: bool) -> (r: Vec<u8>)
    ensures
        r@ == joined(base@, path@, windows),
{
    if length_of_prefix(path, windows) > 0 {
        return slice_to_vec(path);
    }
    if path.len() > 0 && is_verbatim(base, windows) {
        return join_verbatim(base, path);
    }
    let mut more = slice_to_vec(path);
    if is_rooted(path, windows) {
        let mut whole = slice_to_vec(slice_subrange(base, 0, length_of_prefix(base, windows)));
        whole.append(&mut more);
        return whole;
    }
    let mut whole = slice_to_vec(base);
    let bare_drive = windows && base.len() == 2 && starts_with_drive(base);
    if base.len() > 0 && !separates(base[base.len() - 1], windows) && !bare_drive {
        whole.push(
            if windows {
                BACKSLASH
            } else {
                SLASH
            },
        );
    }
    whole.append(&mut more);
    whole
}

/// An absolute path stays what it is, whatever it is seen from.
pub proof fn an_absolute_path_is_seen_alike(base: Seq<u8>, path: Seq<u8>, windows: bool)
    requires
        absolute(path, windows),
    ensures
        joined(base, path, windows) == path,
{
    if verbatim(path, windows) {
        bytes::lemma_first_index(path.skip(4), BACKSLASH);
        if verbatim_share(path) {
            lemma_verbatim_share_length(path);
        }
    }
    if !windows {
        assert(base.take(0) + path =~= path);
    }
}

/// Every separator is spelled `/`, and every other byte as it was.
pub proof fn separators_are_spelled_alike(path: Seq<u8>, windows: bool, i: int)
    requires
        0 <= i < path.len(),
    ensures
        slashed(path, windows).len() == path.len(),
        path[i] == 0x2f || windows && path[i] == 0x5c ==> slashed(path, windows)[i] == 0x2f,
        path[i] != 0x2f && !(windows && path[i] == 0x5c) ==> slashed(path, windows)[i] == path[i],
{
}

/// Whether a piece is a name does not depend on the others: an empty piece never is, a `.`
/// is one only where dots are names, and every other is.
pub proof fn each_piece_is_a_name_on_its_own(a: Seq<Seq<u8>>, b: Seq<Seq<u8>>, x: Seq<u8>, dots: bool)
    ensures
        names(a + b, dots) == names(a, dots) + names(b, dots),
        names(seq![Seq::<u8>::empty()], dots).len() == 0,
        x.len() > 0 && x != seq![0x2eu8] ==> names(seq![x], dots) == seq![x],
        names(seq![seq![0x2eu8]], true) == seq![seq![0x2eu8]],
        names(seq![seq![0x2eu8]], false).len() == 0,
    decreases b.len(),
{
    reveal_strlit(".");
    assert(is_ascii("."));
    assert(".".spec_bytes() =~= seq![0x2eu8]);
    reveal_with_fuel(names, 2);
    assert(seq![x].drop_last() =~= Seq::empty());
    assert(seq![seq![0x2eu8]].drop_last() =~= Seq::empty());
    assert(Seq::<Seq<u8>>::empty().push(x) =~= seq![x]);
    assert(Seq::<Seq<u8>>::empty().push(seq![0x2eu8]) =~= seq![seq![0x2eu8]]);
    if b.len() == 0 {
        assert(a + b =~= a);
        assert(names(a, dots) + names(b, dots) =~= names(a, dots));
    } else {
        each_piece_is_a_name_on_its_own(a, b.drop_last(), x, dots);
        assert((a + b).drop_last() =~= a + b.drop_last());
        assert(names(a + b, dots) =~= names(a, dots) + names(b, dots));
    }
}

/// Without prefixes a path is what stands between its slashes: it starts at the root where
/// its first byte is a slash, and the pieces, put together, give the rest of it.
pub proof fn without_prefixes_a_path_is_its_pieces(path: Seq<u8>)
    ensures
        parts(path, false).prefix.len() == 0,
        parts(path, false).rooted <==> path.len() > 0 && path[0] == 0x2f,
        rooted(path, false) <==> path.len() > 0 && path[0] == 0x2f,
        absolute(path, false) <==> path.len() > 0 && path[0] == 0x2f,
        parts(path, false).here <==> path.len() > 0 && path[0] == 0x2e && (path.len() == 1
            || path[1] == 0x2f),
        path.len() > 0 && path[0] == 0x2f ==> parts(path, false).names == names(
            bytes::split_on(path.skip(1), 0x2f),
            false,
        ),
        !(path.len() > 0 && path[0] == 0x2f) ==> parts(path, false).names == names(
            bytes::split_on(path, 0x2f),
            false,
        ),
{
    reveal_strlit(".");
    assert(is_ascii("."));
    assert(".".spec_bytes() =~= seq![0x2eu8]);
    assert(path.take(0) =~= Seq::empty());
    assert(slashed(path, false) =~= path);
    assert(slashed(path.take(0), false).len() == 0);
    assert(path.skip(0) =~= path);
    let rest = body(path, false);
    assert(slashed(rest, false) =~= rest);
    lemma_first_piece(rest, 0x2f);
    if !rooted(path, false) {
        assert(rest =~= path);
    }
}

/// The first piece of a split is `.` where a `.` comes first and stands alone.
proof fn lemma_first_piece(s: Seq<u8>, separator: u8)
    requires
        separator != 0x2e,
    ensures
        bytes::split_on(s, separator)[0] == seq![0x2eu8] <==> s.len() > 0 && s[0] == 0x2e && (
        s.len() == 1 || s[1] == separator),
{
    bytes::lemma_first_index(s, separator);
    let k = bytes::first_index(s, separator);
    let first = bytes::split_on(s, separator)[0];
    if k < s.len() {
        assert(first == s.take(k));
    } else {
        assert(first == s);
        assert(s.take(k) =~= s);
    }
    if s.len() > 0 && s[0] == 0x2e && (s.len() == 1 || s[1] == separator) {
        bytes::lemma_first_index_unique(s, separator, 1);
        assert(s.take(1) =~= seq![0x2eu8]);
    }
    if first == seq![0x2eu8] {
        assert(k == 1);
        assert(s.take(1)[0] == 0x2e);
    }
}

/// A path of names between slashes says those names, whether it starts at the root or not,
/// and doubled and trailing slashes and a `.` between them add nothing.
pub proof fn a_path_says_its_names(list: Seq<Seq<u8>>, more: Seq<Seq<u8>>)
    requires
        list.len() > 0,
        more.len() > 0,
        forall|i: int| 0 <= i < list.len() ==> !(#[trigger] list[i]).contains(0x2f),
        forall|i: int| 0 <= i < more.len() ==> !(#[trigger] more[i]).contains(0x2f),
        list[0].len() > 0,
    ensures
        ({
            let plain = bytes::join_with(list + more, 0x2f);
            let doubled = bytes::join_with(
                list + seq![Seq::<u8>::empty(), seq![0x2eu8]] + more + seq![Seq::<u8>::empty()],
                0x2f,
            );
            &&& parts(plain, false).names == names(list, false) + names(more, false)
            &&& parts(seq![0x2fu8] + plain, false).names == names(list, false) + names(
                more,
                false,
            )
            &&& parts(doubled, false).names == names(list, false) + names(more, false)
        }),
{
    let empty = Seq::<u8>::empty();
    let dot = seq![0x2eu8];
    let both = list + more;
    let noisy = list + seq![empty, dot] + more + seq![empty];
    let plain = bytes::join_with(both, 0x2f);
    let doubled = bytes::join_with(noisy, 0x2f);
    assert forall|i: int| 0 <= i < both.len() implies !(#[trigger] both[i]).contains(0x2f) by {
        if i < list.len() {
            assert(both[i] == list[i]);
        } else {
            assert(both[i] == more[i - list.len()]);
        }
    }
    assert forall|i: int| 0 <= i < noisy.len() implies !(#[trigger] noisy[i]).contains(0x2f) by {
        if i < list.len() {
            assert(noisy[i] == list[i]);
        } else if i < list.len() + 2 {
            assert(noisy[i] == seq![empty, dot][i - list.len()]);
        } else if i < list.len() + 2 + more.len() {
            assert(noisy[i] == more[i - list.len() - 2]);
        }
    }
    bytes::join_then_split(both, 0x2f);
    bytes::join_then_split(noisy, 0x2f);
    assert(both[0] == list[0] && noisy[0] == list[0]);
    assert(list[0].contains(list[0][0]));
    assert(plain[0] == list[0][0]);
    assert(doubled[0] == list[0][0]);
    without_prefixes_a_path_is_its_pieces(plain);
    without_prefixes_a_path_is_its_pieces(doubled);
    without_prefixes_a_path_is_its_pieces(seq![0x2fu8] + plain);
    assert((seq![0x2fu8] + plain).skip(1) =~= plain);
    each_piece_is_a_name_on_its_own(list, more, dot, false);
    each_piece_is_a_name_on_its_own(list + seq![empty, dot] + more, seq![empty], dot, false);
    each_piece_is_a_name_on_its_own(list + seq![empty, dot], more, dot, false);
    each_piece_is_a_name_on_its_own(list, seq![empty, dot], dot, false);
    each_piece_is_a_name_on_its_own(seq![empty], seq![dot], dot, false);
    assert(seq![empty] + seq![dot] =~= seq![empty, dot]);
    assert(names(list, false) + names(more, false) + names(seq![empty], false) =~= names(
        list,
        false,
    ) + names(more, false));
    assert(names(seq![empty, dot], false) =~= Seq::<Seq<u8>>::empty());
    assert(names(list, false) + names(seq![empty, dot], false) =~= names(list, false));
}

/// A path starts with a drive exactly where a letter and a colon come first; the letter's
/// case does not matter, and such a path is absolute only where a separator follows.
pub proof fn a_drive_is_a_letter_and_a_colon(letter: u8, rest: Seq<u8>)
    ensures
        ({
            let path = seq![letter, 0x3au8] + rest;
            let upper_case = 0x41 <= letter <= 0x5a;
            let lower_case = 0x61 <= letter <= 0x7a;
            let follows = rest.len() > 0 && (rest[0] == 0x2f || rest[0] == 0x5c);
            &&& upper_case ==> prefix(path, true) == seq![letter, 0x3au8]
            &&& lower_case ==> prefix(path, true) == seq![(letter - 0x20) as u8, 0x3au8]
            &&& upper_case || lower_case ==> {
                &&& prefix_length(path, true) == 2
                &&& rooted(path, true) <==> follows
                &&& absolute(path, true) <==> follows
                &&& body(path, true) == if follows {
                    rest.skip(1)
                } else {
                    rest
                }
            }
            &&& !upper_case && !lower_case && letter != 0x2f && letter != 0x5c ==> prefix_length(
                path,
                true,
            ) == 0
        }),
{
    let path = seq![letter, 0x3au8] + rest;
    assert(slashed(path, true)[0] == 0x2f <==> letter == 0x2f || letter == 0x5c);
    if is_letter(letter) {
        assert(path.take(2) =~= seq![letter, 0x3au8]);
        assert(prefix(path, true) =~= seq![upper(letter), 0x3au8]);
        assert(path.skip(2) =~= rest);
        if rest.len() > 0 {
            assert(path.skip(3) =~= rest.skip(1));
            assert(path[2] == rest[0]);
        }
    }
}

/// Without a drive and without two separators ahead there is no prefix; such a path starts
/// at a root where it starts with a separator, and is never absolute by itself on Windows.
pub proof fn other_paths_have_no_prefix(path: Seq<u8>)
    requires
        !(path.len() >= 2 && (0x41 <= path[0] <= 0x5a || 0x61 <= path[0] <= 0x7a) && path[1]
            == 0x3a),
        !(path.len() >= 2 && (path[0] == 0x2f || path[0] == 0x5c) && (path[1] == 0x2f || path[1]
            == 0x5c)),
    ensures
        prefix_length(path, true) == 0,
        prefix(path, true).len() == 0,
        rooted(path, true) <==> path.len() > 0 && (path[0] == 0x2f || path[0] == 0x5c),
        !absolute(path, true),
        !verbatim(path, true),
        parts(path, true).here <==> path.len() > 0 && path[0] == 0x2e && (path.len() == 1
            || path[1] == 0x2f || path[1] == 0x5c),
{
    reveal_strlit(".");
    assert(is_ascii("."));
    assert(".".spec_bytes() =~= seq![0x2eu8]);
    let flat = slashed(path, true);
    if path.len() >= 2 {
        assert(flat[0] == 0x2f <==> path[0] == 0x2f || path[0] == 0x5c);
        assert(flat[1] == 0x2f <==> path[1] == 0x2f || path[1] == 0x5c);
    }
    assert(path.take(0) =~= Seq::empty());
    assert(path.skip(0) =~= path);
    lemma_first_piece(slashed(body(path, true), true), 0x2f);
    if !rooted(path, true) {
        assert(body(path, true) =~= path);
    }
}

/// A share is two separators, a server, a separator and the name of the share; however the
/// separators are spelled, the prefix is the same, and it has a root.
pub proof fn a_share_is_a_server_and_a_name(
    first: u8,
    second: u8,
    server: Seq<u8>,
    third: u8,
    share: Seq<u8>,
    rest: Seq<u8>,
)
    requires
        first == 0x2f || first == 0x5c,
        second == 0x2f || second == 0x5c,
        third == 0x2f || third == 0x5c,
        server.len() > 0,
        share.len() > 0,
        !server.contains(0x2f) && !server.contains(0x5c),
        !share.contains(0x2f) && !share.contains(0x5c),
        rest.len() > 0 ==> rest[0] == 0x2f || rest[0] == 0x5c,
        server != seq![0x2eu8],
        server != seq![0x3fu8],
    ensures
        ({
            let path = seq![first, second] + server + seq![third] + share + rest;
            &&& prefix_length(path, true) == 3 + server.len() + share.len()
            &&& prefix(path, true) == seq![0x2fu8, 0x2fu8] + server + seq![0x2fu8] + share
            &&& rooted(path, true)
            &&& absolute(path, true)
            &&& !verbatim(path, true)
        }),
{
    let path = seq![first, second] + server + seq![third] + share + rest;
    let flat = slashed(path, true);
    let s = server.len() as int;
    let n = share.len() as int;
    assert(path[0] == first && path[1] == second && path[2] == server[0]);
    assert(server.contains(server[0]));
    assert(path[2 + s] == third);
    assert forall|i: int| 0 <= i < s implies flat[2 + i] == server[i] && flat[2 + i] != 0x2f by {
        assert(path[2 + i] == server[i]);
        assert(server.contains(server[i]));
    }
    assert forall|i: int| 0 <= i < n implies flat[3 + s + i] == share[i] && flat[3 + s + i]
        != 0x2f by {
        assert(path[3 + s + i] == share[i]);
        assert(share.contains(share[i]));
    }
    if rest.len() > 0 {
        assert(path[3 + s + n] == rest[0]);
    }
    if path[2] == 0x2e && s == 1 {
        assert(server =~= seq![0x2eu8]);
    }
    if path[2] == 0x3f && s == 1 {
        assert(server =~= seq![0x3fu8]);
    }
    if s > 1 {
        assert(path[3] == server[1]);
        assert(server.contains(server[1]));
    }
    assert(flat[2] == server[0]);
    if s > 1 {
        assert(flat[3] == server[1]);
    }
    assert(device_length(flat) == 0);
    let tail = flat.skip(2);
    assert forall|i: int| 0 <= i < s implies tail[i] != 0x2f by {
        assert(tail[i] == flat[2 + i]);
    }
    assert(tail[s] == flat[2 + s]);
    bytes::lemma_first_index_unique(tail, SLASH, s);
    let last = tail.skip(s + 1);
    assert forall|i: int| 0 <= i < n implies last[i] != 0x2f by {
        assert(last[i] == flat[3 + s + i]);
    }
    if rest.len() > 0 {
        assert(last[n] == flat[3 + s + n]);
    }
    bytes::lemma_first_index_unique(last, SLASH, n);
    let written = path.take(3 + s + n);
    let wanted = seq![0x2fu8, 0x2fu8] + server + seq![0x2fu8] + share;
    assert forall|i: int| 0 <= i < wanted.len() implies slashed(written, true)[i] == wanted[i] by {
        assert(slashed(written, true)[i] == flat[i]);
        if 2 <= i < 2 + s {
            assert(flat[2 + (i - 2)] == server[i - 2]);
        } else if 3 + s <= i {
            assert(flat[3 + s + (i - 3 - s)] == share[i - 3 - s]);
        }
    }
    assert(slashed(written, true) =~= wanted);
}

/// A device is a `.` between separators and a name; however they are spelled, the prefix is
/// the same, and it has a root.
pub proof fn a_device_is_a_dot_and_a_name(
    first: u8,
    second: u8,
    third: u8,
    name: Seq<u8>,
    rest: Seq<u8>,
)
    requires
        first == 0x2f || first == 0x5c,
        second == 0x2f || second == 0x5c,
        third == 0x2f || third == 0x5c,
        !name.contains(0x2f) && !name.contains(0x5c),
        rest.len() > 0 ==> rest[0] == 0x2f || rest[0] == 0x5c,
    ensures
        ({
            let path = seq![first, second, 0x2eu8, third] + name + rest;
            &&& prefix_length(path, true) == 4 + name.len()
            &&& prefix(path, true) == seq![0x2fu8, 0x2fu8, 0x2eu8, 0x2fu8] + name
            &&& rooted(path, true)
            &&& absolute(path, true)
            &&& !verbatim(path, true)
        }),
{
    let path = seq![first, second, 0x2eu8, third] + name + rest;
    let flat = slashed(path, true);
    let n = name.len() as int;
    assert(path[0] == first && path[1] == second && path[2] == 0x2e && path[3] == third);
    assert forall|i: int| 0 <= i < n implies flat[4 + i] == name[i] && flat[4 + i] != 0x2f by {
        assert(path[4 + i] == name[i]);
        assert(name.contains(name[i]));
    }
    if rest.len() > 0 {
        assert(path[4 + n] == rest[0]);
    }
    let tail = flat.skip(4);
    assert forall|i: int| 0 <= i < n implies tail[i] != 0x2f by {
        assert(tail[i] == flat[4 + i]);
    }
    if rest.len() > 0 {
        assert(tail[n] == flat[4 + n]);
    }
    bytes::lemma_first_index_unique(tail, SLASH, n);
    let written = path.take(4 + n);
    let wanted = seq![0x2fu8, 0x2fu8, 0x2eu8, 0x2fu8] + name;
    assert forall|i: int| 0 <= i < wanted.len() implies slashed(written, true)[i] == wanted[i] by {
        assert(slashed(written, true)[i] == flat[i]);
        if i >= 4 {
            assert(flat[4 + (i - 4)] == name[i - 4]);
        }
    }
    assert(slashed(written, true) =~= wanted);
}

/// On Unix one path is seen from another by putting a slash between them, unless one is
/// there or nothing stands before it; a path from the root stays what it is.
pub proof fn a_slash_stands_between_joined_paths(base: Seq<u8>, path: Seq<u8>)
    ensures
        path.len() > 0 && path[0] == 0x2f ==> joined(base, path, false) == path,
        !(path.len() > 0 && path[0] == 0x2f) ==> {
            &&& base.len() == 0 ==> joined(base, path, false) == path
            &&& base.len() > 0 && base.last() == 0x2f ==> joined(base, path, false) == base + path
            &&& base.len() > 0 && base.last() != 0x2f ==> joined(base, path, false) == base
                + seq![0x2fu8] + path
        },
{
    assert(base.take(0) + path =~= path);
    if base.len() == 0 {
        assert(base + path =~= path);
    }
    assert(base.push(0x2f) + path =~= base + seq![0x2fu8] + path);
}

/// On Windows a path with a prefix stays what it is; one from a root keeps the prefix that it
/// is seen from; and any other comes behind, after a `\` unless a separator is there,
/// nothing stands before it, or a drive alone does.
pub proof fn a_backslash_stands_between_joined_windows_paths(base: Seq<u8>, path: Seq<u8>)
    requires
        !verbatim(base, true),
    ensures
        prefix_length(path, true) > 0 ==> joined(base, path, true) == path,
        prefix_length(path, true) == 0 ==> {
            let drive = base.len() == 2 && (0x41 <= base[0] <= 0x5a || 0x61 <= base[0] <= 0x7a)
                && base[1] == 0x3a;
            &&& path.len() > 0 && (path[0] == 0x2f || path[0] == 0x5c) ==> joined(base, path, true)
                == base.take(prefix_length(base, true)) + path
            &&& !(path.len() > 0 && (path[0] == 0x2f || path[0] == 0x5c)) ==> {
                &&& base.len() == 0 || base.last() == 0x2f || base.last() == 0x5c || drive
                    ==> joined(base, path, true) == base + path
                &&& base.len() > 0 && base.last() != 0x2f && base.last() != 0x5c && !drive
                    ==> joined(base, path, true) == base + seq![0x5cu8] + path
            }
        },
{
    assert(base.push(0x5c) + path =~= base + seq![0x5cu8] + path);
}

/// A step goes on by its name, and `..` goes back one; going on and back again leads nowhere,
/// and there is no going back beyond the start.
pub proof fn a_step_back_undoes_a_step(names: Seq<Seq<u8>>, steps: Seq<Seq<u8>>, name: Seq<u8>)
    requires
        name != seq![0x2eu8],
        name != seq![0x2eu8, 0x2eu8],
    ensures
        walked(names, Seq::empty()) == names,
        walked(names, steps.push(name)) == walked(names, steps).push(name),
        walked(names, steps.push(name).push(seq![0x2eu8, 0x2eu8])) == walked(names, steps),
        walked(names, steps).len() == 0 ==> walked(names, steps.push(seq![0x2eu8, 0x2eu8])).len()
            == 0,
        walked(names, steps).len() > 0 && walked(names, steps).last() == seq![0x2eu8, 0x2eu8]
            ==> walked(names, steps.push(seq![0x2eu8, 0x2eu8])) == walked(names, steps),
        walked(names, steps).len() > 0 && walked(names, steps).last() == seq![0x2eu8] ==> walked(
            names,
            steps.push(seq![0x2eu8, 0x2eu8]),
        ) == walked(names, steps),
        walked(names, steps).len() > 0 && walked(names, steps).last() == name ==> walked(
            names,
            steps.push(seq![0x2eu8, 0x2eu8]),
        ) == walked(names, steps).drop_last(),
{
    let back = seq![0x2eu8, 0x2eu8];
    reveal_strlit(".");
    reveal_strlit("..");
    assert(is_ascii("."));
    assert(is_ascii(".."));
    assert(".".spec_bytes() =~= seq![0x2eu8]);
    assert("..".spec_bytes() =~= back);
    reveal_with_fuel(walked, 3);
    assert(steps.push(name).drop_last() =~= steps);
    assert(steps.push(back).drop_last() =~= steps);
    assert(steps.push(name).push(back).drop_last() =~= steps.push(name));
    assert(walked(names, steps).push(name).drop_last() =~= walked(names, steps));
}

/// Names behind a start have a `\` before each, and nothing behind the last.
pub proof fn each_name_has_a_backslash_before_it(start: Seq<u8>, names: Seq<Seq<u8>>, name: Seq<u8>)
    ensures
        followed(start, Seq::empty()) == start,
        followed(start, names.push(name)) == followed(start, names) + seq![0x5cu8] + name,
{
    assert(names.push(name).drop_last() =~= names);
    assert(followed(start, names).push(0x5c) + name =~= followed(start, names) + seq![0x5cu8]
        + name);
}

/// Seen from a verbatim path, a path without a prefix is worked out: its steps go on from the
/// names there, or from the start where it has a root, behind the same prefix.
pub proof fn a_verbatim_base_works_paths_out(base: Seq<u8>, path: Seq<u8>)
    requires
        verbatim(base, true),
        path.len() > 0,
        prefix_length(path, true) == 0,
    ensures
        ({
            let start = base.take(prefix_length(base, true));
            let over = path[0] == 0x2f || path[0] == 0x5c;
            let all = walked(
                if over {
                    Seq::empty()
                } else {
                    parts(base, true).names
                },
                parts(path, true).names,
            );
            &&& all.len() > 0 ==> joined(base, path, true) == followed(start, all)
            &&& all.len() == 0 && (over || rooted(base, true)) ==> joined(base, path, true) == start
                + seq![0x5cu8]
            &&& all.len() == 0 && !over && !rooted(base, true) ==> joined(base, path, true)
                == start
        }),
{
    let start = base.take(prefix_length(base, true));
    assert(start.push(0x5c) =~= start + seq![0x5cu8]);
}

/// Behind a prefix and a root a Windows path is what stands between its separators, however
/// they are spelled; a verbatim one is what stands between its `\`s, and its dots are names.
pub proof fn a_windows_path_is_its_pieces(path: Seq<u8>)
    ensures
        !verbatim(path, true) ==> parts(path, true).names == names(
            bytes::split_on(slashed(body(path, true), true), 0x2f),
            false,
        ),
        verbatim(path, true) ==> parts(path, true).names == names(
            bytes::split_on(body(path, true), 0x5c),
            true,
        ) && !parts(path, true).here,
        parts(path, true).prefix == prefix(path, true),
        parts(path, true).rooted == rooted(path, true),
        prefix_length(path, true) > 0 ==> !parts(path, true).here,
        rooted(path, true) ==> !parts(path, true).here,
{
    if verbatim(path, true) {
        bytes::lemma_first_index(path.skip(4), BACKSLASH);
        if verbatim_share(path) {
            lemma_verbatim_share_length(path);
        }
    }
}

/// Only `\\?\`, spelled like that, makes a path verbatim, and only on Windows. It is then
/// absolute, and starts at a root only where a separator follows its prefix.
pub proof fn only_one_spelling_is_verbatim(path: Seq<u8>)
    ensures
        !verbatim(path, false),
        verbatim(path, true) <==> path.len() >= 4 && path[0] == 0x5c && path[1] == 0x5c && path[2]
            == 0x3f && path[3] == 0x5c,
        verbatim(path, true) ==> absolute(path, true) && (rooted(path, true)
            <==> prefix_length(path, true) < path.len() && (path[prefix_length(path, true)] == 0x2f
            || path[prefix_length(path, true)] == 0x5c)),
{
}

/// A verbatim drive is a letter in any case and a colon, with nothing or a separator behind.
pub proof fn a_verbatim_drive_is_a_letter_and_a_colon(letter: u8, rest: Seq<u8>)
    requires
        0x41 <= letter <= 0x5a || 0x61 <= letter <= 0x7a,
        rest.len() > 0 ==> rest[0] == 0x2f || rest[0] == 0x5c,
    ensures
        ({
            let path = seq![0x5cu8, 0x5cu8, 0x3fu8, 0x5cu8, letter, 0x3au8] + rest;
            &&& prefix_length(path, true) == 6
            &&& letter <= 0x5a ==> prefix(path, true) == seq![
                0x5cu8,
                0x5cu8,
                0x3fu8,
                0x5cu8,
                letter,
                0x3au8,
            ]
            &&& letter >= 0x61 ==> prefix(path, true) == seq![
                0x5cu8,
                0x5cu8,
                0x3fu8,
                0x5cu8,
                (letter - 0x20) as u8,
                0x3au8,
            ]
        }),
{
    let path = seq![0x5cu8, 0x5cu8, 0x3fu8, 0x5cu8, letter, 0x3au8] + rest;
    reveal_strlit("UNC");
    assert(is_ascii("UNC"));
    assert("UNC".spec_bytes()[1] == 0x4e);
    if path.len() >= 7 {
        assert(path.subrange(4, 7)[1] == 0x3a);
    }
    assert(path.skip(4)[0] == letter);
    assert(path.skip(4)[1] == 0x3a);
    if rest.len() > 0 {
        assert(path[6] == rest[0]);
    }
    assert(path.take(6) =~= seq![0x5cu8, 0x5cu8, 0x3fu8, 0x5cu8, letter, 0x3au8]);
    assert(prefix(path, true) =~= seq![
        0x5cu8,
        0x5cu8,
        0x3fu8,
        0x5cu8,
        upper(letter),
        0x3au8,
    ]);
}

/// A verbatim share is the word for one, a server and the name of the share, with `\` between
/// them; the separator behind the word may be spelled either way.
pub proof fn a_verbatim_share_is_a_server_and_a_name(
    spelled: u8,
    server: Seq<u8>,
    share: Seq<u8>,
    rest: Seq<u8>,
)
    requires
        spelled == 0x2f || spelled == 0x5c,
        !server.contains(0x5c),
        !share.contains(0x5c),
        share.len() > 0,
        rest.len() > 0 ==> rest[0] == 0x5c,
    ensures
        ({
            let start = seq![0x5cu8, 0x5cu8, 0x3fu8, 0x5cu8, 0x55u8, 0x4eu8, 0x43u8];
            let path = start + seq![spelled] + server + seq![0x5cu8] + share + rest;
            &&& prefix_length(path, true) == 9 + server.len() + share.len()
            &&& prefix(path, true) == start + seq![0x5cu8] + server + seq![0x5cu8] + share
        }),
{
    let start = seq![0x5cu8, 0x5cu8, 0x3fu8, 0x5cu8, 0x55u8, 0x4eu8, 0x43u8];
    let path = start + seq![spelled] + server + seq![0x5cu8] + share + rest;
    let s = server.len() as int;
    let n = share.len() as int;
    reveal_strlit("UNC");
    assert(is_ascii("UNC"));
    assert(path.subrange(4, 7) =~= "UNC".spec_bytes());
    assert(path[7] == spelled);
    let tail = path.skip(8);
    assert forall|i: int| 0 <= i < s implies tail[i] != 0x5c by {
        assert(tail[i] == server[i]);
        assert(server.contains(server[i]));
    }
    assert(tail[s] == 0x5c);
    bytes::lemma_first_index_unique(tail, BACKSLASH, s);
    let last = tail.skip(s + 1);
    assert forall|i: int| 0 <= i < n implies last[i] != 0x5c by {
        assert(last[i] == share[i]);
        assert(share.contains(share[i]));
    }
    if rest.len() > 0 {
        assert(last[n] == rest[0]);
    }
    bytes::lemma_first_index_unique(last, BACKSLASH, n);
    assert(path.take(9 + s + n).update(7, 0x5c) =~= start + seq![0x5cu8] + server + seq![0x5cu8]
        + share);
}

/// Any other verbatim prefix goes up to the next `\`, and is taken as it is.
pub proof fn any_other_verbatim_prefix_is_a_name(name: Seq<u8>, rest: Seq<u8>)
    requires
        !name.contains(0x5c),
        rest.len() > 0 ==> rest[0] == 0x5c,
        !(name.len() >= 2 && (0x41 <= name[0] <= 0x5a || 0x61 <= name[0] <= 0x7a) && name[1]
            == 0x3a && (name.len() == 2 || name[2] == 0x2f)),
        !(name.len() >= 3 && name[0] == 0x55 && name[1] == 0x4e && name[2] == 0x43 && (name.len()
            == 3 && rest.len() > 0 || name.len() > 3 && name[3] == 0x2f)),
    ensures
        ({
            let start = seq![0x5cu8, 0x5cu8, 0x3fu8, 0x5cu8];
            &&& prefix_length(start + name + rest, true) == 4 + name.len()
            &&& prefix(start + name + rest, true) == start + name
        }),
{
    let start = seq![0x5cu8, 0x5cu8, 0x3fu8, 0x5cu8];
    let path = start + name + rest;
    let n = name.len() as int;
    reveal_strlit("UNC");
    assert(is_ascii("UNC"));
    let tail = path.skip(4);
    assert forall|i: int| 0 <= i < n implies tail[i] == name[i] && tail[i] != 0x5c by {
        assert(tail[i] == name[i]);
        assert(name.contains(name[i]));
    }
    if rest.len() > 0 {
        assert(tail[n] == rest[0]);
    }
    bytes::lemma_first_index_unique(tail, BACKSLASH, n);
    if verbatim_share(path) {
        let word = path.subrange(4, 7);
        assert(word[0] == 0x55 && word[1] == 0x4e && word[2] == 0x43);
        assert(word[0] == tail[0] && word[1] == tail[1] && word[2] == tail[2]);
        assert(path[7] == tail[3]);
    }
    if verbatim_drive(path) {
        assert(n >= 2);
        if path.len() > 6 {
            assert(path[6] == tail[2]);
        }
    }
    assert(path.take(4 + n) =~= start + name);
}

/// A verbatim share whose name is missing has a prefix all the same, up to the server's end.
pub proof fn a_verbatim_share_may_lack_its_name(spelled: u8, server: Seq<u8>, rest: Seq<u8>)
    requires
        spelled == 0x2f || spelled == 0x5c,
        !server.contains(0x5c),
        rest.len() > 0 ==> rest[0] == 0x5c,
        rest.len() > 1 ==> rest[1] == 0x5c,
    ensures
        ({
            let start = seq![0x5cu8, 0x5cu8, 0x3fu8, 0x5cu8, 0x55u8, 0x4eu8, 0x43u8];
            prefix_length(start + seq![spelled] + server + rest, true) == 8 + server.len()
        }),
{
    let start = seq![0x5cu8, 0x5cu8, 0x3fu8, 0x5cu8, 0x55u8, 0x4eu8, 0x43u8];
    let path = start + seq![spelled] + server + rest;
    let s = server.len() as int;
    reveal_strlit("UNC");
    assert(is_ascii("UNC"));
    assert(path.subrange(4, 7) =~= "UNC".spec_bytes());
    assert(path[7] == spelled);
    let tail = path.skip(8);
    assert forall|i: int| 0 <= i < s implies tail[i] != 0x5c by {
        assert(tail[i] == server[i]);
        assert(server.contains(server[i]));
    }
    if rest.len() > 0 {
        assert(tail[s] == rest[0]);
        let last = tail.skip(s + 1);
        if rest.len() > 1 {
            assert(last[0] == rest[1]);
        }
        bytes::lemma_first_index_unique(last, BACKSLASH, 0);
    }
    bytes::lemma_first_index_unique(tail, BACKSLASH, s);
}

/// Two separators without a server, or with one but without the name of a share, are no
/// prefix.
pub proof fn a_share_needs_a_server_and_a_name(
    first: u8,
    second: u8,
    server: Seq<u8>,
    rest: Seq<u8>,
)
    requires
        first == 0x2f || first == 0x5c,
        second == 0x2f || second == 0x5c,
        !server.contains(0x2f) && !server.contains(0x5c),
        server != seq![0x2eu8],
        server != seq![0x3fu8],
        rest.len() > 0 ==> rest[0] == 0x2f || rest[0] == 0x5c,
        server.len() == 0 || rest.len() <= 1 || rest[1] == 0x2f || rest[1] == 0x5c,
    ensures
        prefix_length(seq![first, second] + server + rest, true) == 0,
{
    let path = seq![first, second] + server + rest;
    let flat = slashed(path, true);
    let s = server.len() as int;
    assert forall|i: int| 0 <= i < s implies flat[2 + i] == server[i] && flat[2 + i] != 0x2f by {
        assert(path[2 + i] == server[i]);
        assert(server.contains(server[i]));
    }
    if rest.len() > 0 {
        assert(path[2 + s] == rest[0]);
    }
    if rest.len() > 1 {
        assert(path[3 + s] == rest[1]);
    }
    if path.len() >= 4 {
        if s == 0 {
            assert(flat[2] == 0x2f);
        } else {
            assert(flat[2] == server[0] && path[2] == server[0]);
            if s == 1 && server[0] == 0x2e {
                assert(server =~= seq![0x2eu8]);
            }
            if s == 1 && server[0] == 0x3f {
                assert(server =~= seq![0x3fu8]);
            }
            if s > 1 {
                assert(flat[3] == server[1] && path[3] == server[1]);
            }
        }
    }
    assert(device_length(flat) == 0);
    if path.len() > 2 {
        let tail = flat.skip(2);
        assert forall|i: int| 0 <= i < s implies tail[i] != 0x2f by {
            assert(tail[i] == flat[2 + i]);
        }
        if rest.len() > 0 {
            assert(tail[s] == flat[2 + s]);
        }
        bytes::lemma_first_index_unique(tail, SLASH, s);
        if 0 < s && rest.len() > 0 {
            let last = tail.skip(s + 1);
            if rest.len() > 1 {
                assert(last[0] == flat[3 + s]);
            }
            bytes::lemma_first_index_unique(last, SLASH, 0);
        }
    }
}

} // verus!
