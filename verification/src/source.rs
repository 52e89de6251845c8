//! Picks which existing checkout a new worktree is grown from.
//!
//! Candidates come from `git worktree list`; the winner is the closest commit.

use vstd::prelude::*;
use vstd::slice::slice_subrange;
use vstd::slice::slice_to_vec;
use vstd::string::*;
use vstd::utf8::*;

use crate::bytes;
use crate::paths;

verus! {

/// How many candidates are worth scoring. Beyond this the scoring costs more than it saves.
pub const CANDIDATE_LIMIT: usize = 5;

/// The line terminator in git's output.
pub const NEWLINE: u8 = 0x0a;

/// One entry of `git worktree list --porcelain`.
#[derive(Debug, PartialEq, Eq)]
pub struct Worktree {
    pub path: Vec<u8>,
    pub head: Option<String>,
    pub bare: bool,
    pub prunable: bool,
}

/// The content of a [`Worktree`].
pub struct Checkout {
    pub path: Seq<u8>,
    pub head: Option<Seq<char>>,
    pub bare: bool,
    pub prunable: bool,
}

/// The characters of an optional text.
pub open spec fn characters(text: Option<String>) -> Option<Seq<char>> {
    match text {
        Some(text) => Some(text@),
        None => None,
    }
}

impl View for Worktree {
    type V = Checkout;

    open spec fn view(&self) -> Checkout {
        Checkout {
            path: self.path@,
            head: characters(self.head),
            bare: self.bare,
            prunable: self.prunable,
        }
    }
}

impl Clone for Worktree {
    fn clone(&self) -> (copy: Self)
        ensures
            copy@ == self@,
    {
        let head = match &self.head {
            Some(text) => Some(text.clone()),
            None => None,
        };
        Worktree {
            path: slice_to_vec(self.path.as_slice()),
            head,
            bare: self.bare,
            prunable: self.prunable,
        }
    }
}

/// The contents of a list of worktrees.
pub open spec fn checkouts(list: Seq<Worktree>) -> Seq<Checkout> {
    Seq::new(list.len(), |i: int| list[i]@)
}

/// The text that bytes encode, if they do.
pub open spec fn text_of(bytes: Seq<u8>) -> Option<Seq<char>> {
    if valid_utf8(bytes) {
        Some(decode_utf8(bytes))
    } else {
        None
    }
}

/// Whether a line opens the description of a worktree.
pub open spec fn opens(line: Seq<u8>) -> bool {
    "worktree ".spec_bytes().is_prefix_of(line)
}

/// The worktree that an opening line names.
pub open spec fn opened(line: Seq<u8>) -> Checkout {
    Checkout {
        path: line.skip("worktree ".spec_bytes().len() as int),
        head: None,
        bare: false,
        prunable: false,
    }
}

/// What one more line says about a worktree. Lines of no interest here say nothing.
pub open spec fn described(worktree: Checkout, line: Seq<u8>) -> Checkout {
    if "HEAD ".spec_bytes().is_prefix_of(line) {
        Checkout { head: text_of(line.skip("HEAD ".spec_bytes().len() as int)), ..worktree }
    } else if line == "bare".spec_bytes() {
        Checkout { bare: true, ..worktree }
    } else if line == "prunable".spec_bytes() || "prunable ".spec_bytes().is_prefix_of(line) {
        Checkout { prunable: true, ..worktree }
    } else {
        worktree
    }
}

/// A worktree as a list of at most one.
pub open spec fn at_most_one(worktree: Option<Checkout>) -> Seq<Checkout> {
    match worktree {
        Some(worktree) => seq![worktree],
        None => Seq::empty(),
    }
}

/// The worktrees that lines describe, given the one whose description is not over yet. An
/// opening line starts a description; an empty line or the next opening line ends it.
pub open spec fn listed(lines: Seq<Seq<u8>>, current: Option<Checkout>) -> Seq<Checkout>
    decreases lines.len(),
{
    if lines.len() == 0 {
        at_most_one(current)
    } else if lines[0].len() == 0 {
        at_most_one(current) + listed(lines.skip(1), None)
    } else if opens(lines[0]) {
        at_most_one(current) + listed(lines.skip(1), Some(opened(lines[0])))
    } else {
        listed(
            lines.skip(1),
            match current {
                Some(worktree) => Some(described(worktree, lines[0])),
                None => None,
            },
        )
    }
}

/// `/c` and `/c/...` as `C:` and `C:/...`; nothing else names a drive.
pub open spec fn drive_path(path: Seq<u8>) -> Option<Seq<u8>> {
    if valid_utf8(path) && path.len() >= 2 && path[0] == paths::SLASH && paths::is_letter(path[1])
        && (path.len() > 2 ==> path[2] == paths::SLASH) {
        Some(seq![paths::upper(path[1]), paths::COLON] + path.skip(2))
    } else {
        None
    }
}

/// The bytes after a prefix of that length.
fn after(line: &[u8], length: usize) -> (r: &[u8])
    requires
        length <= line.len(),
    ensures
        r@ == line@.skip(length as int),
{
    slice_subrange(line, length, line.len())
}

/// Adds what a line says about a worktree.
fn describe(worktree: &mut Worktree, line: &[u8])
    ensures
        final(worktree)@ == described(old(worktree)@, line@),
{
    let head = "HEAD ".as_bytes();
    if bytes::begins_with(line, head) {
        worktree.head = match bytes::as_text(after(line, head.len())) {
            Some(text) => Some(text.to_owned()),
            None => None,
        };
    } else if bytes::is_word(line, "bare") {
        worktree.bare = true;
    } else if bytes::is_word(line, "prunable") || bytes::begins_with(line, "prunable ".as_bytes()) {
        worktree.prunable = true;
    }
}

/// Parses `git worktree list --porcelain`.
pub fn parse_list(output: &[u8]) -> (worktrees: Vec<Worktree>)
    ensures
        checkouts(worktrees@) == listed(bytes::split_on(output@, NEWLINE), None),
{
    let lines = bytes::split(output, NEWLINE);
    let ghost all = bytes::views(lines@);
    let mut worktrees: Vec<Worktree> = Vec::new();
    let mut current: Option<Worktree> = None;
    let mut i: usize = 0;
    assert(all.skip(0) =~= all);
    assert(checkouts(worktrees@) =~= Seq::empty());
    assert(checkouts(worktrees@) + listed(all, None) =~= listed(all, None));
    while i < lines.len()
        invariant
            i <= lines.len(),
            all == bytes::views(lines@),
            listed(all, None) == checkouts(worktrees@) + listed(
                all.skip(i as int),
                match current {
                    Some(worktree) => Some(worktree@),
                    None => None,
                },
            ),
        decreases lines.len() - i,
    {
        let line = lines[i].as_slice();
        let ghost rest = all.skip(i as int);
        let ghost done = checkouts(worktrees@);
        assert(rest[0] == line@);
        assert(rest.skip(1) =~= all.skip(i + 1));
        i = i + 1;
        if line.len() == 0 {
            if let Some(worktree) = current {
                worktrees.push(worktree);
                assert(checkouts(worktrees@) =~= done + seq![worktree@]);
                assert(done + (seq![worktree@] + listed(rest.skip(1), None)) =~= (done + seq![
                    worktree@,
                ]) + listed(rest.skip(1), None));
            } else {
                assert(Seq::<Checkout>::empty() + listed(rest.skip(1), None) =~= listed(
                    rest.skip(1),
                    None,
                ));
            }
            current = None;
            continue;
        }
        let opening = "worktree ".as_bytes();
        if bytes::begins_with(line, opening) {
            let path = slice_to_vec(after(line, opening.len()));
            let next = Worktree { path, head: None, bare: false, prunable: false };
            if let Some(worktree) = current {
                worktrees.push(worktree);
                assert(checkouts(worktrees@) =~= done + seq![worktree@]);
                assert(done + (seq![worktree@] + listed(rest.skip(1), Some(next@))) =~= (done
                    + seq![worktree@]) + listed(rest.skip(1), Some(next@)));
            } else {
                assert(Seq::<Checkout>::empty() + listed(rest.skip(1), Some(next@)) =~= listed(
                    rest.skip(1),
                    Some(next@),
                ));
            }
            current = Some(next);
            continue;
        }
        if let Some(mut worktree) = current {
            describe(&mut worktree, line);
            current = Some(worktree);
        }
    }
    let ghost done = checkouts(worktrees@);
    assert(all.skip(i as int).len() == 0);
    if let Some(worktree) = current {
        worktrees.push(worktree);
        assert(checkouts(worktrees@) =~= done + seq![worktree@]);
    } else {
        assert(done + Seq::<Checkout>::empty() =~= done);
    }
    worktrees
}

/// Converts the `/c/...` spelling emitted by Git for Windows into a native drive path.
///
/// Windows does not treat such a path as absolute. Leaving `/w/repo` untouched makes a real
/// checkout look missing, and makes metadata checks inspect a path relative to the process's
/// current drive.
pub fn msys_drive_path(path: &[u8]) -> (r: Option<Vec<u8>>)
    ensures
        bytes::view_of(r) == drive_path(path@),
{
    if bytes::as_text(path).is_none() {
        return None;
    }
    if path.len() < 2 || path[0] != paths::SLASH {
        return None;
    }
    let letter = path[1];
    let lower = 0x61 <= letter && letter <= 0x7a;
    if !lower && !(0x41 <= letter && letter <= 0x5a) {
        return None;
    }
    if path.len() > 2 && path[2] != paths::SLASH {
        return None;
    }
    let mut native: Vec<u8> = Vec::new();
    native.push(if lower {
        letter - 0x20
    } else {
        letter
    });
    native.push(paths::COLON);
    let mut rest = slice_to_vec(after(path, 2));
    native.append(&mut rest);
    assert(native@ =~= seq![paths::upper(path@[1]), paths::COLON] + path@.skip(2));
    Some(native)
}

/// What `std` reports as the canonical form of a path, and its text with unreadable parts
/// replaced.
pub struct Canonical {
    pub path: Vec<u8>,
    pub text: Vec<u8>,
}

/// A path with an MSYS drive spelled the native way.
pub open spec fn spelled(path: Seq<u8>) -> Seq<u8> {
    match drive_path(path) {
        Some(native) => native,
        None => path,
    }
}

/// The path to use for one that git printed. On Windows that is the canonical form of the
/// native spelling, without the `\\\\?\\` that canonical paths start with there.
pub open spec fn native(path: Seq<u8>, canonical: Option<(Seq<u8>, Seq<u8>)>, windows: bool) -> Seq<u8> {
    if !windows {
        path
    } else {
        match canonical {
            None => spelled(path),
            Some((canonical, text)) => if "\\\\?\\".spec_bytes().is_prefix_of(text) {
                text.skip("\\\\?\\".spec_bytes().len() as int)
            } else {
                canonical
            },
        }
    }
}

/// The path whose canonical form a native path needs.
pub fn drive_spelling(path: Vec<u8>) -> (r: Vec<u8>)
    ensures
        r@ == spelled(path@),
{
    match msys_drive_path(path.as_slice()) {
        Some(native) => native,
        None => path,
    }
}

/// The path to use for one that git printed, given the canonical form of its
/// [`drive_spelling`] where there is one.
pub fn native_worktree_path(path: Vec<u8>, canonical: Option<Canonical>, windows: bool) -> (r: Vec<
    u8,
>)
    ensures
        r@ == native(
            path@,
            match canonical {
                Some(canonical) => Some((canonical.path@, canonical.text@)),
                None => None,
            },
            windows,
        ),
{
    if !windows {
        return path;
    }
    match canonical {
        None => drive_spelling(path),
        Some(canonical) => {
            let verbatim = "\\\\?\\".as_bytes();
            if bytes::begins_with(canonical.text.as_slice(), verbatim) {
                slice_to_vec(after(canonical.text.as_slice(), verbatim.len()))
            } else {
                canonical.path
            }
        },
    }
}

/// Whether two worktrees, named by their positions, are at the same path.
pub open spec fn same_place(worktrees: Seq<Checkout>, i: int, j: int, windows: bool) -> bool {
    paths::parts(worktrees[i].path, windows) == paths::parts(worktrees[j].path, windows)
}

/// The first worktree at the path the command was run from.
pub open spec fn is_current(
    worktrees: Seq<Checkout>,
    current: Option<Seq<u8>>,
    i: int,
    windows: bool,
) -> bool {
    &&& current is Some
    &&& 0 <= i < worktrees.len()
    &&& paths::parts(worktrees[i].path, windows) == paths::parts(current->Some_0, windows)
    &&& forall|j: int|
        0 <= j < i ==> paths::parts(#[trigger] worktrees[j].path, windows) != paths::parts(
            current->Some_0,
            windows,
        )
}

/// Whether the worktree at `i` goes before the one at `j` for having been modified later.
/// One whose time is not known goes last, and of two of the same time the one listed later
/// goes first.
pub open spec fn ahead(modified: Seq<Option<i128>>, i: int, j: int) -> bool {
    match (modified[i], modified[j]) {
        (Some(x), Some(y)) => x > y || (x == y && i > j),
        (Some(_), None) => true,
        (None, Some(_)) => false,
        (None, None) => i > j,
    }
}

/// The checkout the command was run from and the main worktree, which is listed first.
pub open spec fn is_leading(
    worktrees: Seq<Checkout>,
    current: Option<Seq<u8>>,
    leading: Seq<int>,
    windows: bool,
) -> bool {
    if worktrees.len() == 0 {
        leading == Seq::<int>::empty()
    } else if exists|i: int| is_current(worktrees, current, i, windows) {
        let here = choose|i: int| is_current(worktrees, current, i, windows);
        leading == if same_place(worktrees, here, 0, windows) {
            seq![here]
        } else {
            seq![here, 0int]
        }
    } else {
        leading == seq![0int]
    }
}

/// Whether the worktree at `i` is at the path of a leading one.
pub open spec fn is_led(
    worktrees: Seq<Checkout>,
    leading: Seq<int>,
    i: int,
    windows: bool,
) -> bool {
    exists|k: int|
        0 <= k < leading.len() && same_place(worktrees, #[trigger] leading[k], i, windows)
}

/// The order in which ties are broken: the checkout the command was run from, then the main
/// worktree, then the rest, most recently modified first.
pub open spec fn is_preference_order(
    worktrees: Seq<Checkout>,
    current: Option<Seq<u8>>,
    modified: Seq<Option<i128>>,
    leading: Seq<int>,
    rest: Seq<int>,
    windows: bool,
) -> bool {
    &&& is_leading(worktrees, current, leading, windows)
    &&& forall|k: int, l: int|
        0 <= k < l < rest.len() ==> ahead(modified, #[trigger] rest[k], #[trigger] rest[l])
    &&& forall|i: int|
        #[trigger] rest.contains(i) <==> 0 <= i < worktrees.len() && !is_led(
            worktrees,
            leading,
            i,
            windows,
        )
}

/// The positions of the worktrees in the order of preference.
pub open spec fn preference_order(
    worktrees: Seq<Checkout>,
    current: Option<Seq<u8>>,
    modified: Seq<Option<i128>>,
    windows: bool,
) -> Seq<int> {
    let (leading, rest) = choose|leading: Seq<int>, rest: Seq<int>|
        is_preference_order(worktrees, current, modified, leading, rest, windows);
    leading + rest
}

/// A worktree is the current one at one position at most.
proof fn lemma_current_unique(
    worktrees: Seq<Checkout>,
    current: Option<Seq<u8>>,
    i: int,
    j: int,
    windows: bool,
)
    requires
        is_current(worktrees, current, i, windows),
        is_current(worktrees, current, j, windows),
    ensures
        i == j,
{
    if i < j {
        assert(paths::parts(worktrees[i].path, windows) != paths::parts(current->Some_0, windows));
    }
    if j < i {
        assert(paths::parts(worktrees[j].path, windows) != paths::parts(current->Some_0, windows));
    }
}

/// Two lists that are ordered alike and hold the same positions are the same.
proof fn lemma_ordered_unique(modified: Seq<Option<i128>>, a: Seq<int>, b: Seq<int>)
    requires
        forall|k: int, l: int|
            0 <= k < l < a.len() ==> ahead(modified, #[trigger] a[k], #[trigger] a[l]),
        forall|k: int, l: int|
            0 <= k < l < b.len() ==> ahead(modified, #[trigger] b[k], #[trigger] b[l]),
        forall|i: int| #[trigger] a.contains(i) <==> b.contains(i),
    ensures
        a == b,
    decreases a.len(),
{
    if a.len() == 0 {
        if b.len() > 0 {
            assert(b.contains(b[0]));
            assert(a.contains(b[0]));
        }
        assert(a =~= b);
    } else {
        assert(a.contains(a[0]));
        assert(b.contains(a[0]));
        let k = choose|k: int| 0 <= k < b.len() && b[k] == a[0];
        assert(b.contains(b[0]));
        assert(a.contains(b[0]));
        let l = choose|l: int| 0 <= l < a.len() && a[l] == b[0];
        if k > 0 {
            assert(ahead(modified, b[0], b[k]));
            if l > 0 {
                assert(ahead(modified, a[0], a[l]));
            }
        }
        assert(a[0] == b[0]);
        let x = a.drop_first();
        let y = b.drop_first();
        assert forall|i: int| #[trigger] x.contains(i) <==> y.contains(i) by {
            if x.contains(i) {
                let m = choose|m: int| 0 <= m < x.len() && x[m] == i;
                assert(a[m + 1] == i);
                assert(ahead(modified, a[0], a[m + 1]));
                assert(a.contains(i));
                let n = choose|n: int| 0 <= n < b.len() && b[n] == i;
                assert(n > 0);
                assert(y[n - 1] == i);
            }
            if y.contains(i) {
                let m = choose|m: int| 0 <= m < y.len() && y[m] == i;
                assert(b[m + 1] == i);
                assert(ahead(modified, b[0], b[m + 1]));
                assert(b.contains(i));
                assert(a.contains(i));
                let n = choose|n: int| 0 <= n < a.len() && a[n] == i;
                assert(n > 0);
                assert(x[n - 1] == i);
            }
        }
        assert forall|k: int, l: int| 0 <= k < l < x.len() implies ahead(
            modified,
            #[trigger] x[k],
            #[trigger] x[l],
        ) by {
            assert(ahead(modified, a[k + 1], a[l + 1]));
        }
        assert forall|k: int, l: int| 0 <= k < l < y.len() implies ahead(
            modified,
            #[trigger] y[k],
            #[trigger] y[l],
        ) by {
            assert(ahead(modified, b[k + 1], b[l + 1]));
        }
        lemma_ordered_unique(modified, x, y);
        assert(a =~= seq![a[0]] + x);
        assert(b =~= seq![b[0]] + y);
    }
}

/// The order of preference is fixed by what it says: there is only one.
pub proof fn preference_order_is_unique(
    worktrees: Seq<Checkout>,
    current: Option<Seq<u8>>,
    modified: Seq<Option<i128>>,
    leading: Seq<int>,
    rest: Seq<int>,
    windows: bool,
)
    requires
        is_preference_order(worktrees, current, modified, leading, rest, windows),
    ensures
        preference_order(worktrees, current, modified, windows) == leading + rest,
{
    let (l, r) = choose|leading: Seq<int>, rest: Seq<int>|
        is_preference_order(worktrees, current, modified, leading, rest, windows);
    assert(is_preference_order(worktrees, current, modified, l, r, windows));
    assert(l == leading);
    assert forall|i: int| #[trigger] r.contains(i) <==> rest.contains(i) by {}
    lemma_ordered_unique(modified, r, rest);
}

/// A position can be put among ordered ones so that all are in order.
proof fn lemma_put_in_order(modified: Seq<Option<i128>>, rest: Seq<int>, i: int) -> (now: Seq<int>)
    requires
        !rest.contains(i),
        forall|k: int, l: int|
            0 <= k < l < rest.len() ==> ahead(modified, #[trigger] rest[k], #[trigger] rest[l]),
    ensures
        forall|k: int, l: int|
            0 <= k < l < now.len() ==> ahead(modified, #[trigger] now[k], #[trigger] now[l]),
        forall|j: int| #[trigger] now.contains(j) <==> rest.contains(j) || j == i,
    decreases rest.len(),
{
    if rest.len() == 0 || ahead(modified, rest.last(), i) {
        let now = rest.push(i);
        assert forall|k: int, l: int| 0 <= k < l < now.len() implies ahead(
            modified,
            #[trigger] now[k],
            #[trigger] now[l],
        ) by {
            if l == rest.len() && k < rest.len() - 1 {
                assert(ahead(modified, rest[k], rest[rest.len() - 1]));
            }
        }
        assert forall|j: int| #[trigger] now.contains(j) <==> rest.contains(j) || j == i by {
            if rest.contains(j) {
                let k = choose|k: int| 0 <= k < rest.len() && rest[k] == j;
                assert(now[k] == j);
            }
            if j == i {
                assert(now[rest.len() as int] == j);
            }
        }
        now
    } else {
        let last = rest.last();
        let start = rest.drop_last();
        assert(rest.contains(last));
        assert forall|j: int| #[trigger] start.contains(j) implies rest.contains(j) by {
            let k = choose|k: int| 0 <= k < start.len() && start[k] == j;
            assert(rest[k] == j);
        }
        let shorter = lemma_put_in_order(modified, start, i);
        let now = shorter.push(last);
        assert forall|k: int, l: int| 0 <= k < l < now.len() implies ahead(
            modified,
            #[trigger] now[k],
            #[trigger] now[l],
        ) by {
            if l == shorter.len() {
                assert(shorter.contains(shorter[k]));
                if shorter[k] != i {
                    let m = choose|m: int| 0 <= m < start.len() && start[m] == shorter[k];
                    assert(ahead(modified, rest[m], rest[rest.len() - 1]));
                }
            }
        }
        assert forall|j: int| #[trigger] now.contains(j) <==> rest.contains(j) || j == i by {
            if now.contains(j) {
                let k = choose|k: int| 0 <= k < now.len() && now[k] == j;
                if k < shorter.len() {
                    assert(shorter.contains(j));
                }
            }
            if rest.contains(j) {
                let k = choose|k: int| 0 <= k < rest.len() && rest[k] == j;
                if k < start.len() {
                    assert(start[k] == j);
                    assert(shorter.contains(j));
                } else {
                    assert(now[shorter.len() as int] == j);
                }
            }
            if j == i {
                assert(shorter.contains(j));
            }
            if shorter.contains(j) {
                let k = choose|k: int| 0 <= k < shorter.len() && shorter[k] == j;
                assert(now[k] == j);
            }
        }
        now
    }
}

/// The positions below a bound that are not led can be put in order.
proof fn lemma_rest_in_order(
    worktrees: Seq<Checkout>,
    modified: Seq<Option<i128>>,
    leading: Seq<int>,
    bound: int,
    windows: bool,
) -> (rest: Seq<int>)
    requires
        0 <= bound,
    ensures
        forall|k: int, l: int|
            0 <= k < l < rest.len() ==> ahead(modified, #[trigger] rest[k], #[trigger] rest[l]),
        forall|i: int|
            #[trigger] rest.contains(i) <==> 0 <= i < bound && !is_led(
                worktrees,
                leading,
                i,
                windows,
            ),
    decreases bound,
{
    if bound == 0 {
        Seq::empty()
    } else {
        let earlier = lemma_rest_in_order(worktrees, modified, leading, bound - 1, windows);
        if is_led(worktrees, leading, bound - 1, windows) {
            earlier
        } else {
            lemma_put_in_order(modified, earlier, bound - 1)
        }
    }
}

/// Whatever is listed, there is an order of preference.
pub proof fn a_preference_order_exists(
    worktrees: Seq<Checkout>,
    current: Option<Seq<u8>>,
    modified: Seq<Option<i128>>,
    windows: bool,
)
    requires
        modified.len() == worktrees.len(),
    ensures
        exists|leading: Seq<int>, rest: Seq<int>|
            is_preference_order(worktrees, current, modified, leading, rest, windows),
{
    let leading = if worktrees.len() == 0 {
        Seq::<int>::empty()
    } else if exists|i: int| is_current(worktrees, current, i, windows) {
        let here = choose|i: int| is_current(worktrees, current, i, windows);
        if same_place(worktrees, here, 0, windows) {
            seq![here]
        } else {
            seq![here, 0int]
        }
    } else {
        seq![0int]
    };
    let rest = lemma_rest_in_order(
        worktrees,
        modified,
        leading,
        worktrees.len() as int,
        windows,
    );
    assert(is_preference_order(worktrees, current, modified, leading, rest, windows));
}

/// Positions as numbers.
pub open spec fn numbers(positions: Seq<usize>) -> Seq<int> {
    Seq::new(positions.len(), |k: int| positions[k] as int)
}

/// Where the checkout the command was run from is listed.
fn find_current(worktrees: &[Worktree], current: Option<&[u8]>, windows: bool) -> (r: Option<usize>)
    ensures
        match r {
            Some(i) => is_current(
                checkouts(worktrees@),
                bytes::slice_of(current),
                i as int,
                windows,
            ),
            None => forall|i: int|
                !(#[trigger] is_current(
                    checkouts(worktrees@),
                    bytes::slice_of(current),
                    i,
                    windows,
                )),
        },
{
    let place = match current {
        Some(path) => path,
        None => {
            return None;
        },
    };
    let ghost all = checkouts(worktrees@);
    let mut i: usize = 0;
    while i < worktrees.len()
        invariant
            i <= worktrees.len(),
            all == checkouts(worktrees@),
            current == Some(place),
            forall|j: int|
                0 <= j < i ==> paths::parts(#[trigger] all[j].path, windows) != paths::parts(
                    place@,
                    windows,
                ),
        decreases worktrees.len() - i,
    {
        assert(all[i as int].path == worktrees@[i as int].path@);
        if paths::same_path(worktrees[i].path.as_slice(), place, windows) {
            return Some(i);
        }
        i = i + 1;
    }
    None
}

/// Whether the worktree at `i` is at the path of a leading one.
fn led(worktrees: &[Worktree], leading: &[usize], i: usize, windows: bool) -> (r: bool)
    requires
        i < worktrees.len(),
        forall|k: int| 0 <= k < leading.len() ==> #[trigger] leading@[k] < worktrees.len(),
    ensures
        r == is_led(checkouts(worktrees@), numbers(leading@), i as int, windows),
{
    let ghost all = checkouts(worktrees@);
    let ghost heads = numbers(leading@);
    let mut k: usize = 0;
    while k < leading.len()
        invariant
            i < worktrees.len(),
            forall|k: int| 0 <= k < leading.len() ==> #[trigger] leading@[k] < worktrees.len(),
            k <= leading.len(),
            all == checkouts(worktrees@),
            heads == numbers(leading@),
            forall|l: int| 0 <= l < k ==> !same_place(all, #[trigger] heads[l], i as int, windows),
        decreases leading.len() - k,
    {
        let head = leading[k];
        assert(heads[k as int] == head);
        let (a, b) = (worktrees[head].path.as_slice(), worktrees[i].path.as_slice());
        if paths::same_path(a, b, windows) {
            assert(same_place(all, heads[k as int], i as int, windows));
            return true;
        }
        k = k + 1;
    }
    false
}

/// Whether the worktree at `i` goes before the one at `j`.
fn is_ahead(modified: &[Option<i128>], i: usize, j: usize) -> (r: bool)
    requires
        i < modified.len(),
        j < modified.len(),
    ensures
        r == ahead(modified@, i as int, j as int),
{
    match (modified[i], modified[j]) {
        (Some(x), Some(y)) => x > y || (x == y && i > j),
        (Some(_), None) => true,
        (None, Some(_)) => false,
        (None, None) => i > j,
    }
}

/// Puts position `i`, which is past all others, where it belongs.
fn insert_by_time(rest: &mut Vec<usize>, modified: &[Option<i128>], i: usize)
    requires
        i < modified.len(),
        forall|k: int| 0 <= k < old(rest).len() ==> #[trigger] old(rest)@[k] < i,
        forall|k: int, l: int|
            0 <= k < l < old(rest).len() ==> ahead(
                modified@,
                #[trigger] numbers(old(rest)@)[k],
                #[trigger] numbers(old(rest)@)[l],
            ),
    ensures
        forall|k: int| 0 <= k < final(rest).len() ==> #[trigger] final(rest)@[k] <= i,
        forall|k: int, l: int|
            0 <= k < l < final(rest).len() ==> ahead(
                modified@,
                #[trigger] numbers(final(rest)@)[k],
                #[trigger] numbers(final(rest)@)[l],
            ),
        forall|j: int|
            #[trigger] numbers(final(rest)@).contains(j) <==> numbers(old(rest)@).contains(j) || j
                == i,
{
    let ghost prior = rest@;
    let ghost before = numbers(prior);
    let mut at: usize = 0;
    while at < rest.len() && is_ahead(modified, rest[at], i)
        invariant
            at <= rest.len(),
            rest@ == prior,
            before == numbers(prior),
            i < modified.len(),
            forall|k: int| 0 <= k < rest.len() ==> #[trigger] rest@[k] < i,
            forall|k: int| 0 <= k < at ==> ahead(modified@, #[trigger] before[k], i as int),
        decreases rest.len() - at,
    {
        assert(before[at as int] == rest@[at as int]);
        at = at + 1;
    }
    rest.insert(at, i);
    let ghost now = numbers(rest@);
    assert forall|k: int, l: int| 0 <= k < l < now.len() implies ahead(
        modified@,
        #[trigger] now[k],
        #[trigger] now[l],
    ) by {
        if at < before.len() {
            assert(before[at as int] == prior[at as int]);
        }
        if k < at && l < at {
            assert(now[k] == before[k] && now[l] == before[l]);
        } else if k < at && l == at {
            assert(now[k] == before[k]);
        } else if k < at {
            assert(now[k] == before[k] && now[l] == before[l - 1]);
        } else if k == at {
            assert(now[l] == before[l - 1]);
            if l - 1 > at {
                assert(ahead(modified@, before[at as int], before[l - 1]));
            }
        } else {
            assert(now[k] == before[k - 1] && now[l] == before[l - 1]);
        }
    }
    assert forall|j: int|
        #[trigger] now.contains(j) <==> before.contains(j) || j == i by {
        if now.contains(j) {
            let k = choose|k: int| 0 <= k < now.len() && now[k] == j;
            if k < at {
                assert(before[k] == j);
            } else if k > at {
                assert(before[k - 1] == j);
            }
        }
        if before.contains(j) {
            let k = choose|k: int| 0 <= k < before.len() && before[k] == j;
            if k < at {
                assert(now[k] == j);
            } else {
                assert(now[k + 1] == j);
            }
        }
        if j == i {
            assert(now[at as int] == i);
        }
    }
}

/// The positions of the worktrees in the order of preference.
fn ordered_positions(
    worktrees: &[Worktree],
    current: Option<&[u8]>,
    modified: &[Option<i128>],
    windows: bool,
) -> (order: Vec<usize>)
    requires
        modified.len() == worktrees.len(),
    ensures
        numbers(order@) == preference_order(
            checkouts(worktrees@),
            bytes::slice_of(current),
            modified@,
            windows,
        ),
        forall|k: int| 0 <= k < order.len() ==> #[trigger] order@[k] < worktrees.len(),
{
    let ghost all = checkouts(worktrees@);
    let ghost here = bytes::slice_of(current);
    let mut leading: Vec<usize> = Vec::new();
    let found = find_current(worktrees, current, windows);
    if let Some(i) = found {
        leading.push(i);
    }
    if worktrees.len() > 0 && !led(worktrees, leading.as_slice(), 0, windows) {
        leading.push(0);
    }
    let ghost heads = numbers(leading@);
    proof {
        match found {
            Some(i) => {
                let chosen = choose|j: int| is_current(all, here, j, windows);
                lemma_current_unique(all, here, i as int, chosen, windows);
                assert(numbers(seq![i])[0] == i);
                if same_place(all, i as int, 0, windows) {
                    assert(heads =~= seq![i as int]);
                } else {
                    assert(heads =~= seq![i as int, 0int]);
                }
            },
            None => {
                if all.len() == 0 {
                    assert(heads =~= Seq::<int>::empty());
                } else {
                    assert(heads =~= seq![0int]);
                }
            },
        }
    }
    assert(is_leading(all, here, heads, windows));

    let mut rest: Vec<usize> = Vec::new();
    let mut i: usize = 0;
    while i < worktrees.len()
        invariant
            i <= worktrees.len(),
            modified.len() == worktrees.len(),
            all == checkouts(worktrees@),
            heads == numbers(leading@),
            forall|k: int| 0 <= k < leading.len() ==> #[trigger] leading@[k] < worktrees.len(),
            forall|k: int| 0 <= k < rest.len() ==> #[trigger] rest@[k] < i,
            forall|k: int, l: int|
                0 <= k < l < rest.len() ==> ahead(
                    modified@,
                    #[trigger] numbers(rest@)[k],
                    #[trigger] numbers(rest@)[l],
                ),
            forall|j: int|
                #[trigger] numbers(rest@).contains(j) <==> 0 <= j < i && !is_led(
                    all,
                    heads,
                    j,
                    windows,
                ),
        decreases worktrees.len() - i,
    {
        if !led(worktrees, leading.as_slice(), i, windows) {
            insert_by_time(&mut rest, modified, i);
        }
        i = i + 1;
    }
    let ghost later = numbers(rest@);
    assert(is_preference_order(all, here, modified@, heads, later, windows));
    proof {
        preference_order_is_unique(all, here, modified@, heads, later, windows);
    }
    leading.append(&mut rest);
    assert(numbers(leading@) =~= heads + later);
    leading
}

/// Orders the candidates the way ties should be broken: the checkout the command was run
/// from, then the main worktree, then the rest, most recently modified first. `modified`
/// holds when each was modified, where that is known.
pub fn in_preference_order(
    worktrees: &[Worktree],
    current: Option<&[u8]>,
    modified: &[Option<i128>],
    windows: bool,
) -> (ordered: Vec<Worktree>)
    requires
        modified.len() == worktrees.len(),
    ensures
        checkouts(ordered@) == preference_order(
            checkouts(worktrees@),
            bytes::slice_of(current),
            modified@,
            windows,
        ).map_values(|i: int| checkouts(worktrees@)[i]),
{
    let order = ordered_positions(worktrees, current, modified, windows);
    let ghost all = checkouts(worktrees@);
    let ghost positions = numbers(order@);
    let mut ordered: Vec<Worktree> = Vec::new();
    let mut k: usize = 0;
    while k < order.len()
        invariant
            k <= order.len(),
            all == checkouts(worktrees@),
            positions == numbers(order@),
            forall|k: int| 0 <= k < order.len() ==> #[trigger] order@[k] < worktrees.len(),
            ordered.len() == k,
            forall|l: int| 0 <= l < k ==> (#[trigger] ordered@[l])@ == all[positions[l]],
        decreases order.len() - k,
    {
        ordered.push(worktrees[order[k]].clone());
        k = k + 1;
    }
    assert(checkouts(ordered@) =~= positions.map_values(|i: int| all[i]));
    ordered
}

/// The worktrees with the checkout the command is running from, if that is known.
pub open spec fn with_current(
    worktrees: Seq<Checkout>,
    current: Option<Checkout>,
    windows: bool,
) -> Seq<Checkout> {
    match current {
        Some(current) => if exists|i: int|
            0 <= i < worktrees.len() && paths::parts(#[trigger] worktrees[i].path, windows)
                == paths::parts(current.path, windows) {
            worktrees
        } else {
            worktrees.push(current)
        },
        None => worktrees,
    }
}

/// Include the checkout the command is running from when Git's worktree list reports only
/// its common git directory, as happens for absorbed submodules.
pub fn include_current_checkout(
    worktrees: &[Worktree],
    current: Option<Worktree>,
    windows: bool,
) -> (candidates: Vec<Worktree>)
    ensures
        checkouts(candidates@) == with_current(
            checkouts(worktrees@),
            match current {
                Some(current) => Some(current@),
                None => None,
            },
            windows,
        ),
{
    let ghost all = checkouts(worktrees@);
    let mut candidates: Vec<Worktree> = Vec::new();
    let mut i: usize = 0;
    while i < worktrees.len()
        invariant
            i <= worktrees.len(),
            all == checkouts(worktrees@),
            checkouts(candidates@) == all.take(i as int),
        decreases worktrees.len() - i,
    {
        let ghost prior = checkouts(candidates@);
        candidates.push(worktrees[i].clone());
        assert(checkouts(candidates@) =~= prior.push(all[i as int]));
        assert(all.take(i + 1) =~= all.take(i as int).push(all[i as int]));
        i = i + 1;
    }
    assert(all.take(i as int) =~= all);
    if let Some(current) = current {
        let listed = find_current(worktrees, Some(current.path.as_slice()), windows);
        proof {
            if let Some(at) = listed {
                assert(paths::parts(all[at as int].path, windows) == paths::parts(
                    current@.path,
                    windows,
                ));
            } else {
                lemma_nowhere_current(all, current@.path, windows);
            }
        }
        if listed.is_none() {
            candidates.push(current);
            assert(checkouts(candidates@) =~= all.push(current@));
        }
    }
    candidates
}

/// Where no worktree is the current one, none is at its path.
proof fn lemma_nowhere_current(worktrees: Seq<Checkout>, path: Seq<u8>, windows: bool)
    requires
        forall|i: int| !(#[trigger] is_current(worktrees, Some(path), i, windows)),
    ensures
        forall|i: int|
            0 <= i < worktrees.len() ==> paths::parts(#[trigger] worktrees[i].path, windows)
                != paths::parts(path, windows),
{
    assert forall|i: int| 0 <= i < worktrees.len() implies paths::parts(
        #[trigger] worktrees[i].path,
        windows,
    ) != paths::parts(path, windows) by {
        if paths::parts(worktrees[i].path, windows) == paths::parts(path, windows) {
            lemma_some_current(worktrees, path, i, windows);
        }
    }
}

/// Where a worktree is at a path, a first one is.
proof fn lemma_some_current(worktrees: Seq<Checkout>, path: Seq<u8>, i: int, windows: bool)
    requires
        0 <= i < worktrees.len(),
        paths::parts(worktrees[i].path, windows) == paths::parts(path, windows),
    ensures
        exists|j: int| #[trigger] is_current(worktrees, Some(path), j, windows),
    decreases i,
{
    if exists|j: int|
        0 <= j < i && paths::parts(#[trigger] worktrees[j].path, windows) == paths::parts(
            path,
            windows,
        ) {
        let j = choose|j: int|
            0 <= j < i && paths::parts(#[trigger] worktrees[j].path, windows) == paths::parts(
                path,
                windows,
            );
        lemma_some_current(worktrees, path, j, windows);
    } else {
        assert(is_current(worktrees, Some(path), i, windows));
    }
}

/// What was seen of a worktree on disk.
#[derive(Debug, Clone, Copy, PartialEq, Eq)]
pub struct Observed {
    /// When it was modified, in nanoseconds since the epoch, where that is known.
    pub modified: Option<i128>,
    /// Whether its path is a directory.
    pub directory: bool,
    /// The device it lives on, where the platform reports one.
    pub device: Option<u64>,
}

/// When each worktree was modified.
pub open spec fn modification_times(observed: Seq<Observed>) -> Seq<Option<i128>> {
    Seq::new(observed.len(), |i: int| observed[i].modified)
}

/// Whether two devices may be the same.
pub open spec fn same_device(a: Option<u64>, b: Option<u64>) -> bool {
    match (a, b) {
        (Some(a), Some(b)) => a == b,
        _ => true,
    }
}

/// Whether a worktree can be cloned from into `destination`: it holds files, it is not the
/// destination itself, and no volume lies between the two.
pub open spec fn can_serve(
    worktree: Checkout,
    observed: Observed,
    destination: Seq<u8>,
    device: Option<u64>,
    windows: bool,
) -> bool {
    &&& !worktree.bare
    &&& !worktree.prunable
    &&& paths::parts(worktree.path, windows) != paths::parts(destination, windows)
    &&& observed.directory
    &&& same_device(device, observed.device)
}

/// Those of the positions whose worktree can serve, in the same order.
pub open spec fn serving(
    positions: Seq<int>,
    worktrees: Seq<Checkout>,
    observed: Seq<Observed>,
    destination: Seq<u8>,
    device: Option<u64>,
    windows: bool,
) -> Seq<int>
    decreases positions.len(),
{
    if positions.len() == 0 {
        Seq::empty()
    } else {
        let start = positions.drop_last();
        let earlier = serving(start, worktrees, observed, destination, device, windows);
        let last = positions.last();
        if can_serve(worktrees[last], observed[last], destination, device, windows) {
            earlier.push(last)
        } else {
            earlier
        }
    }
}

/// The positions of the worktrees worth scoring: the first few that can serve.
pub open spec fn candidate_positions(
    worktrees: Seq<Checkout>,
    observed: Seq<Observed>,
    current: Option<Seq<u8>>,
    destination: Seq<u8>,
    device: Option<u64>,
    windows: bool,
) -> Seq<int> {
    let all = serving(
        preference_order(worktrees, current, modification_times(observed), windows),
        worktrees,
        observed,
        destination,
        device,
        windows,
    );
    if all.len() > CANDIDATE_LIMIT {
        all.take(CANDIDATE_LIMIT as int)
    } else {
        all
    }
}

/// How many paths a candidate's HEAD differs from the target commit in, from what git
/// printed of them. One that cannot be compared is the farthest.
pub open spec fn distance(worktree: Checkout, diff: Option<Seq<u8>>) -> int {
    match diff {
        Some(output) if worktree.head is Some => bytes::count_of(output, 0) as int,
        _ => usize::MAX as int,
    }
}

/// Whether the candidate at `k` is the closest, and the first of those.
pub open spec fn is_closest(
    worktrees: Seq<Checkout>,
    candidates: Seq<int>,
    diffs: Seq<Option<Seq<u8>>>,
    k: int,
) -> bool {
    &&& 0 <= k < candidates.len()
    &&& forall|l: int|
        0 <= l < candidates.len() ==> distance(worktrees[candidates[k]], diffs[candidates[k]])
            <= distance(worktrees[#[trigger] candidates[l]], diffs[candidates[l]])
    &&& forall|l: int|
        0 <= l < k ==> distance(worktrees[candidates[k]], diffs[candidates[k]]) < distance(
            worktrees[#[trigger] candidates[l]],
            diffs[candidates[l]],
        )
}

/// The contents of what git printed for each worktree.
pub open spec fn outputs(diffs: Seq<Option<Vec<u8>>>) -> Seq<Option<Seq<u8>>> {
    Seq::new(diffs.len(), |i: int| bytes::view_of(diffs[i]))
}

/// Whether a worktree can be cloned from.
fn is_able(
    worktree: &Worktree,
    observed: Observed,
    destination: &[u8],
    device: Option<u64>,
    windows: bool,
) -> (r: bool)
    ensures
        r == can_serve(worktree@, observed, destination@, device, windows),
{
    if worktree.bare || worktree.prunable {
        return false;
    }
    if paths::same_path(worktree.path.as_slice(), destination, windows) {
        return false;
    }
    if !observed.directory {
        return false;
    }
    match (device, observed.device) {
        (Some(destination), Some(candidate)) => destination == candidate,
        _ => true,
    }
}

/// The positions of the checkouts that are worth scoring: of those that can serve, the
/// first few in the order of preference.
pub fn candidates(
    worktrees: &[Worktree],
    observed: &[Observed],
    current: Option<&[u8]>,
    destination: &[u8],
    destination_device: Option<u64>,
    windows: bool,
) -> (found: Vec<usize>)
    requires
        observed.len() == worktrees.len(),
    ensures
        numbers(found@) == candidate_positions(
            checkouts(worktrees@),
            observed@,
            bytes::slice_of(current),
            destination@,
            destination_device,
            windows,
        ),
        forall|k: int| 0 <= k < found.len() ==> #[trigger] found@[k] < worktrees.len(),
{
    let ghost all = checkouts(worktrees@);
    let mut modified: Vec<Option<i128>> = Vec::new();
    let mut i: usize = 0;
    while i < observed.len()
        invariant
            i <= observed.len(),
            modified@ == modification_times(observed@).take(i as int),
        decreases observed.len() - i,
    {
        modified.push(observed[i].modified);
        assert(modification_times(observed@).take(i + 1) =~= modification_times(observed@).take(
            i as int,
        ).push(observed@[i as int].modified));
        i = i + 1;
    }
    assert(modified@ =~= modification_times(observed@));

    let order = ordered_positions(worktrees, current, modified.as_slice(), windows);
    let ghost positions = numbers(order@);
    let mut found: Vec<usize> = Vec::new();
    let mut k: usize = 0;
    assert(numbers(found@) =~= serving(
        positions.take(0),
        all,
        observed@,
        destination@,
        destination_device,
        windows,
    ));
    while k < order.len()
        invariant
            k <= order.len(),
            observed.len() == worktrees.len(),
            all == checkouts(worktrees@),
            positions == numbers(order@),
            forall|k: int| 0 <= k < order.len() ==> #[trigger] order@[k] < worktrees.len(),
            forall|k: int| 0 <= k < found.len() ==> #[trigger] found@[k] < worktrees.len(),
            numbers(found@) == serving(
                positions.take(k as int),
                all,
                observed@,
                destination@,
                destination_device,
                windows,
            ),
        decreases order.len() - k,
    {
        let at = order[k];
        assert(positions.take(k + 1).drop_last() =~= positions.take(k as int));
        assert(positions.take(k + 1).last() == at);
        if is_able(&worktrees[at], observed[at], destination, destination_device, windows) {
            let ghost prior = numbers(found@);
            found.push(at);
            assert(numbers(found@) =~= prior.push(at as int));
        }
        k = k + 1;
    }
    assert(positions.take(k as int) =~= positions);
    let ghost able = numbers(found@);
    if found.len() > CANDIDATE_LIMIT {
        found.truncate(CANDIDATE_LIMIT);
        assert(numbers(found@) =~= able.take(CANDIDATE_LIMIT as int));
    }
    found
}

/// How many paths the candidate's HEAD differs from the target commit in. `output` is what
/// git printed of them, one NUL after each, if it could.
pub fn differing_paths(worktree: &Worktree, output: Option<&[u8]>) -> (n: usize)
    ensures
        n == distance(worktree@, bytes::slice_of(output)),
{
    match output {
        Some(output) => if worktree.head.is_some() {
            bytes::count(output, 0)
        } else {
            usize::MAX
        },
        None => usize::MAX,
    }
}

/// Chooses the checkout to clone from, or `None` when none can serve.
///
/// Only worktrees of the same repository on the same device qualify, because a block
/// clone cannot cross volumes. Among those, the one whose HEAD differs from the target
/// commit in the fewest paths wins, since every differing path is one git has to write.
///
/// `diffs` holds, for each of the [`candidates`], the paths that git reports as differing.
pub fn choose_source(
    worktrees: &[Worktree],
    observed: &[Observed],
    current: Option<&[u8]>,
    destination: &[u8],
    destination_device: Option<u64>,
    diffs: &[Option<Vec<u8>>],
    windows: bool,
) -> (chosen: Option<Vec<u8>>)
    requires
        observed.len() == worktrees.len(),
        diffs.len() == worktrees.len(),
    ensures
        ({
            let all = checkouts(worktrees@);
            let able = candidate_positions(
                all,
                observed@,
                bytes::slice_of(current),
                destination@,
                destination_device,
                windows,
            );
            match chosen {
                Some(path) => exists|k: int|
                    #[trigger] is_closest(all, able, outputs(diffs@), k) && path@
                        == all[able[k]].path,
                None => able.len() == 0,
            }
        }),
{
    let able = candidates(worktrees, observed, current, destination, destination_device, windows);
    if able.len() == 0 {
        return None;
    }
    let ghost all = checkouts(worktrees@);
    let ghost positions = numbers(able@);
    let ghost printed = outputs(diffs@);
    let mut best: usize = 0;
    let mut least: usize = differing_paths(
        &worktrees[able[0]],
        match &diffs[able[0]] {
            Some(output) => Some(output.as_slice()),
            None => None,
        },
    );
    let mut k: usize = 1;
    while k < able.len()
        invariant
            1 <= k <= able.len(),
            best < k,
            diffs.len() == worktrees.len(),
            all == checkouts(worktrees@),
            positions == numbers(able@),
            printed == outputs(diffs@),
            forall|k: int| 0 <= k < able.len() ==> #[trigger] able@[k] < worktrees.len(),
            least == distance(all[positions[best as int]], printed[positions[best as int]]),
            forall|l: int|
                0 <= l < k ==> least <= distance(
                    all[#[trigger] positions[l]],
                    printed[positions[l]],
                ),
            forall|l: int|
                0 <= l < best ==> least < distance(
                    all[#[trigger] positions[l]],
                    printed[positions[l]],
                ),
        decreases able.len() - k,
    {
        let at = able[k];
        assert(positions[k as int] == at);
        let score = differing_paths(
            &worktrees[at],
            match &diffs[at] {
                Some(output) => Some(output.as_slice()),
                None => None,
            },
        );
        if score < least {
            best = k;
            least = score;
        }
        k = k + 1;
    }
    assert(is_closest(all, positions, printed, best as int));
    Some(slice_to_vec(worktrees[able[best]].path.as_slice()))
}

/// Asks for the top of the checkout that a command runs in.
pub open spec fn toplevel_command() -> Seq<Seq<u8>> {
    seq![
        "rev-parse".spec_bytes(),
        "--path-format=absolute".spec_bytes(),
        "--show-toplevel".spec_bytes(),
    ]
}

/// The arguments that ask for the top of the checkout that the command was run from.
pub fn toplevel_args() -> (args: Vec<Vec<u8>>)
    ensures
        bytes::views(args@) == toplevel_command(),
{
    let args = vec![
        bytes::word("rev-parse"),
        bytes::word("--path-format=absolute"),
        bytes::word("--show-toplevel"),
    ];
    assert(bytes::views(args@) =~= toplevel_command());
    args
}

/// The checkout that the command was run from, where it has a top and a commit.
pub fn current_checkout(top: Option<&[u8]>, head: Option<String>) -> (r: Option<Worktree>)
    ensures
        match (bytes::slice_of(top), characters(head)) {
            (Some(path), Some(text)) => r matches Some(worktree) && worktree@ == (Checkout {
                path,
                head: Some(text),
                bare: false,
                prunable: false,
            }),
            _ => r is None,
        },
{
    match (top, head) {
        (Some(path), Some(text)) => Some(
            Worktree { path: slice_to_vec(path), head: Some(text), bare: false, prunable: false },
        ),
        _ => None,
    }
}

/// Asks for the paths in which two commits differ.
pub open spec fn diff_command(head: Seq<u8>, target: Seq<u8>) -> Seq<Seq<u8>> {
    seq![
        "diff-tree".spec_bytes(),
        "-r".spec_bytes(),
        "-z".spec_bytes(),
        "--name-only".spec_bytes(),
        head,
        target,
    ]
}

/// The arguments that ask for the paths in which a checkout's commit differs from the target
/// commit. A checkout without a commit cannot be asked about.
pub fn diff_args(worktree: &Worktree, target_commit: &[u8]) -> (args: Option<Vec<Vec<u8>>>)
    ensures
        match worktree@.head {
            Some(head) => args matches Some(args) && bytes::views(args@) == diff_command(
                encode_utf8(head),
                target_commit@,
            ),
            None => args is None,
        },
{
    match &worktree.head {
        Some(head) => {
            let mut args = vec![
                bytes::word("diff-tree"),
                bytes::word("-r"),
                bytes::word("-z"),
                bytes::word("--name-only"),
            ];
            args.push(bytes::word(head.as_str()));
            args.push(slice_to_vec(target_commit));
            assert(bytes::views(args@) =~= diff_command(encode_utf8(head@), target_commit@));
            Some(args)
        },
        None => None,
    }
}

/// The checkout the command was run from comes first, and the main worktree next to it.
pub proof fn the_current_checkout_comes_first(
    worktrees: Seq<Checkout>,
    current: Option<Seq<u8>>,
    modified: Seq<Option<i128>>,
    windows: bool,
)
    requires
        modified.len() == worktrees.len(),
        worktrees.len() > 0,
    ensures
        ({
            let order = preference_order(worktrees, current, modified, windows);
            &&& order.len() > 0
            &&& forall|i: int| #[trigger]
                is_current(worktrees, current, i, windows) ==> order[0] == i && (!same_place(
                    worktrees,
                    i,
                    0,
                    windows,
                ) ==> order.len() > 1 && order[1] == 0)
            &&& (forall|i: int| !(#[trigger] is_current(worktrees, current, i, windows)))
                ==> order[0] == 0
        }),
{
    a_preference_order_exists(worktrees, current, modified, windows);
    let (leading, rest) = choose|leading: Seq<int>, rest: Seq<int>|
        is_preference_order(worktrees, current, modified, leading, rest, windows);
    preference_order_is_unique(worktrees, current, modified, leading, rest, windows);
    assert forall|i: int| #[trigger] is_current(worktrees, current, i, windows) implies leading[0]
        == i && (!same_place(worktrees, i, 0, windows) ==> leading.len() > 1 && leading[1]
        == 0) by {
        let here = choose|i: int| is_current(worktrees, current, i, windows);
        lemma_current_unique(worktrees, current, i, here, windows);
    }
}

/// No checkout is lost: whatever path is listed, one worktree at that path is in the order
/// of preference.
pub proof fn every_listed_path_is_in_the_order(
    worktrees: Seq<Checkout>,
    current: Option<Seq<u8>>,
    modified: Seq<Option<i128>>,
    i: int,
    windows: bool,
)
    requires
        modified.len() == worktrees.len(),
        0 <= i < worktrees.len(),
    ensures
        exists|k: int|
            0 <= k < preference_order(worktrees, current, modified, windows).len() && same_place(
                worktrees,
                #[trigger] preference_order(worktrees, current, modified, windows)[k],
                i,
                windows,
            ),
{
    a_preference_order_exists(worktrees, current, modified, windows);
    let (leading, rest) = choose|leading: Seq<int>, rest: Seq<int>|
        is_preference_order(worktrees, current, modified, leading, rest, windows);
    preference_order_is_unique(worktrees, current, modified, leading, rest, windows);
    let order = preference_order(worktrees, current, modified, windows);
    if is_led(worktrees, leading, i, windows) {
        let k = choose|k: int|
            0 <= k < leading.len() && same_place(worktrees, #[trigger] leading[k], i, windows);
        assert(order[k] == leading[k]);
    } else {
        assert(rest.contains(i));
        let k = choose|k: int| 0 <= k < rest.len() && rest[k] == i;
        assert(order[leading.len() + k] == i);
    }
}

/// Every position that is served from can serve, and was among the positions.
proof fn lemma_serving(
    positions: Seq<int>,
    worktrees: Seq<Checkout>,
    observed: Seq<Observed>,
    destination: Seq<u8>,
    device: Option<u64>,
    k: int,
    windows: bool,
)
    requires
        0 <= k < serving(positions, worktrees, observed, destination, device, windows).len(),
    ensures
        ({
            let at = serving(positions, worktrees, observed, destination, device, windows)[k];
            &&& can_serve(worktrees[at], observed[at], destination, device, windows)
            &&& positions.contains(at)
        }),
    decreases positions.len(),
{
    if positions.len() > 0 {
        let start = positions.drop_last();
        let earlier = serving(start, worktrees, observed, destination, device, windows);
        if k < earlier.len() {
            lemma_serving(start, worktrees, observed, destination, device, k, windows);
            let at = earlier[k];
            let j = choose|j: int| 0 <= j < start.len() && start[j] == at;
            assert(positions[j] == at);
        } else {
            assert(positions[positions.len() - 1] == positions.last());
        }
    }
}

/// Every candidate can serve: it is a usable checkout, not the destination, and not known to
/// be on another device. No more than a few are considered.
pub proof fn candidates_can_serve(
    worktrees: Seq<Checkout>,
    observed: Seq<Observed>,
    current: Option<Seq<u8>>,
    destination: Seq<u8>,
    device: Option<u64>,
    windows: bool,
)
    ensures
        ({
            let found = candidate_positions(
                worktrees,
                observed,
                current,
                destination,
                device,
                windows,
            );
            &&& found.len() <= CANDIDATE_LIMIT
            &&& forall|k: int|
                0 <= k < found.len() ==> can_serve(
                    worktrees[#[trigger] found[k]],
                    observed[found[k]],
                    destination,
                    device,
                    windows,
                )
        }),
{
    let order = preference_order(worktrees, current, modification_times(observed), windows);
    let found = candidate_positions(worktrees, observed, current, destination, device, windows);
    assert forall|k: int| 0 <= k < found.len() implies can_serve(
        worktrees[#[trigger] found[k]],
        observed[found[k]],
        destination,
        device,
        windows,
    ) by {
        lemma_serving(order, worktrees, observed, destination, device, k, windows);
    }
}

/// What was observed and printed fixes the choice: only one candidate is the closest, and
/// the first of those.
pub proof fn the_choice_is_unique(
    worktrees: Seq<Checkout>,
    candidates: Seq<int>,
    diffs: Seq<Option<Seq<u8>>>,
    k: int,
    l: int,
)
    requires
        is_closest(worktrees, candidates, diffs, k),
        is_closest(worktrees, candidates, diffs, l),
    ensures
        k == l,
{
    if k < l {
        assert(distance(worktrees[candidates[l]], diffs[candidates[l]]) < distance(
            worktrees[candidates[k]],
            diffs[candidates[k]],
        ));
    }
    if l < k {
        assert(distance(worktrees[candidates[k]], diffs[candidates[k]]) < distance(
            worktrees[candidates[l]],
            diffs[candidates[l]],
        ));
    }
}

/// How many of the lines open the description of a worktree.
pub open spec fn openings(lines: Seq<Seq<u8>>) -> nat
    decreases lines.len(),
{
    if lines.len() == 0 {
        0
    } else {
        openings(lines.skip(1)) + if opens(lines[0]) {
            1nat
        } else {
            0nat
        }
    }
}

/// A listing holds exactly the worktrees that it opens.
pub proof fn a_listing_holds_what_it_opens(lines: Seq<Seq<u8>>, current: Option<Checkout>)
    ensures
        listed(lines, current).len() == openings(lines) + at_most_one(current).len(),
    decreases lines.len(),
{
    if lines.len() > 0 {
        let rest = lines.skip(1);
        a_listing_holds_what_it_opens(rest, None);
        a_listing_holds_what_it_opens(rest, Some(opened(lines[0])));
        if let Some(worktree) = current {
            a_listing_holds_what_it_opens(rest, Some(described(worktree, lines[0])));
        }
        if lines[0].len() == 0 {
            reveal_strlit("worktree ");
            assert(is_ascii("worktree "));
            assert(!opens(lines[0]));
        }
    }
}

/// The lines that describe a worktree, in the order in which git prints them.
pub open spec fn description(worktree: Checkout) -> Seq<Seq<u8>> {
    seq!["worktree ".spec_bytes() + worktree.path] + (match worktree.head {
        Some(head) => seq!["HEAD ".spec_bytes() + encode_utf8(head)],
        None => Seq::empty(),
    } + (if worktree.bare {
        seq!["bare".spec_bytes()]
    } else {
        Seq::empty()
    } + (if worktree.prunable {
        seq!["prunable".spec_bytes()]
    } else {
        Seq::empty()
    } + seq![Seq::<u8>::empty()])))
}

/// The lines that describe a list of worktrees.
pub open spec fn descriptions(worktrees: Seq<Checkout>) -> Seq<Seq<u8>>
    decreases worktrees.len(),
{
    if worktrees.len() == 0 {
        Seq::empty()
    } else {
        description(worktrees[0]) + descriptions(worktrees.skip(1))
    }
}

/// A listing of worktrees, each line with its terminator.
pub open spec fn printed(worktrees: Seq<Checkout>) -> Seq<u8> {
    bytes::join_with(descriptions(worktrees).push(Seq::empty()), NEWLINE)
}

proof fn lemma_listed_line(line: Seq<u8>, more: Seq<Seq<u8>>, current: Option<Checkout>)
    ensures
        line.len() == 0 ==> listed(seq![line] + more, current) == at_most_one(current) + listed(
            more,
            None,
        ),
        line.len() > 0 && opens(line) ==> listed(seq![line] + more, current) == at_most_one(current)
            + listed(more, Some(opened(line))),
        line.len() > 0 && !opens(line) && current is Some ==> listed(seq![line] + more, current)
            == listed(more, Some(described(current->Some_0, line))),
{
    let lines = seq![line] + more;
    assert(lines[0] == line);
    assert(lines.skip(1) =~= more);
}

/// What the words of a listing start with, and that none holds a line terminator.
proof fn lemma_listing_words()
    ensures
        "worktree ".spec_bytes().len() == 9,
        "worktree ".spec_bytes()[0] == 0x77,
        "HEAD ".spec_bytes().len() == 5,
        "HEAD ".spec_bytes()[0] == 0x48,
        "bare".spec_bytes().len() == 4,
        "bare".spec_bytes()[0] == 0x62,
        "prunable".spec_bytes().len() == 8,
        "prunable".spec_bytes()[0] == 0x70,
        !"worktree ".spec_bytes().contains(NEWLINE),
        !"HEAD ".spec_bytes().contains(NEWLINE),
        !"bare".spec_bytes().contains(NEWLINE),
        !"prunable".spec_bytes().contains(NEWLINE),
{
    reveal_strlit("worktree ");
    reveal_strlit("HEAD ");
    reveal_strlit("bare");
    reveal_strlit("prunable");
    assert(is_ascii("worktree "));
    assert(is_ascii("HEAD "));
    assert(is_ascii("bare"));
    assert(is_ascii("prunable"));
}

/// A description is read back, whatever follows it.
proof fn lemma_description(worktree: Checkout, more: Seq<Seq<u8>>)
    ensures
        listed(description(worktree) + more, None) == seq![worktree] + listed(more, None),
{
    lemma_listing_words();
    let none = Seq::<Seq<u8>>::empty();
    let opening = "worktree ".spec_bytes() + worktree.path;
    let head_lines = match worktree.head {
        Some(head) => seq!["HEAD ".spec_bytes() + encode_utf8(head)],
        None => none,
    };
    let bare_lines = if worktree.bare {
        seq!["bare".spec_bytes()]
    } else {
        none
    };
    let prunable_lines = if worktree.prunable {
        seq!["prunable".spec_bytes()]
    } else {
        none
    };
    let end = seq![Seq::<u8>::empty()] + more;
    let from_prunable = prunable_lines + end;
    let from_bare = bare_lines + from_prunable;
    let from_head = head_lines + from_bare;
    assert(description(worktree) + more =~= seq![opening] + from_head);

    let w0 = Checkout { path: worktree.path, head: None, bare: false, prunable: false };
    let w1 = Checkout { head: worktree.head, ..w0 };
    let w2 = Checkout { bare: worktree.bare, ..w1 };
    assert("worktree ".spec_bytes() =~= opening.take(9));
    assert(opening.skip(9) =~= worktree.path);
    lemma_listed_line(opening, from_head, None);
    assert(Seq::<Checkout>::empty() + listed(from_head, Some(w0)) =~= listed(from_head, Some(w0)));

    if let Some(head) = worktree.head {
        let line = "HEAD ".spec_bytes() + encode_utf8(head);
        assert(line[0] == 0x48);
        assert("HEAD ".spec_bytes() =~= line.take(5));
        assert(line.skip(5) =~= encode_utf8(head));
        encode_utf8_valid_utf8(head);
        encode_utf8_decode_utf8(head);
        lemma_listed_line(line, from_bare, Some(w0));
    } else {
        assert(from_head =~= from_bare);
    }
    if worktree.bare {
        lemma_listed_line("bare".spec_bytes(), from_prunable, Some(w1));
    } else {
        assert(from_bare =~= from_prunable);
    }
    if worktree.prunable {
        lemma_listed_line("prunable".spec_bytes(), end, Some(w2));
    } else {
        assert(from_prunable =~= end);
    }
    lemma_listed_line(Seq::empty(), more, Some(worktree));
}

/// Descriptions are read back.
proof fn lemma_descriptions(worktrees: Seq<Checkout>, more: Seq<Seq<u8>>)
    ensures
        listed(descriptions(worktrees) + more, None) == worktrees + listed(more, None),
    decreases worktrees.len(),
{
    if worktrees.len() == 0 {
        assert(descriptions(worktrees) + more =~= more);
        assert(worktrees + listed(more, None) =~= listed(more, None));
    } else {
        let rest = worktrees.skip(1);
        let later = descriptions(rest) + more;
        assert(descriptions(worktrees) + more =~= description(worktrees[0]) + later);
        lemma_description(worktrees[0], later);
        lemma_descriptions(rest, more);
        assert(seq![worktrees[0]] + (rest + listed(more, None)) =~= worktrees + listed(more, None));
    }
}

/// No line of a description holds a line terminator, where path and head hold none.
proof fn lemma_description_lines(worktrees: Seq<Checkout>)
    requires
        forall|i: int|
            0 <= i < worktrees.len() ==> !(#[trigger] worktrees[i]).path.contains(NEWLINE) && (
            worktrees[i].head matches Some(head) ==> !encode_utf8(head).contains(NEWLINE)),
    ensures
        forall|j: int|
            0 <= j < descriptions(worktrees).len() ==> !(#[trigger] descriptions(
                worktrees,
            )[j]).contains(NEWLINE),
    decreases worktrees.len(),
{
    if worktrees.len() > 0 {
        let rest = worktrees.skip(1);
        assert forall|i: int| 0 <= i < rest.len() implies !(#[trigger] rest[i]).path.contains(
            NEWLINE,
        ) && (rest[i].head matches Some(head) ==> !encode_utf8(head).contains(NEWLINE)) by {
            assert(rest[i] == worktrees[i + 1]);
        }
        lemma_description_lines(rest);
        lemma_listing_words();
        let first = description(worktrees[0]);
        let opening = "worktree ".spec_bytes() + worktrees[0].path;
        lemma_no_newline("worktree ".spec_bytes(), worktrees[0].path);
        if let Some(head) = worktrees[0].head {
            lemma_no_newline("HEAD ".spec_bytes(), encode_utf8(head));
        }
        assert forall|j: int| 0 <= j < descriptions(worktrees).len() implies !(
        #[trigger] descriptions(worktrees)[j]).contains(NEWLINE) by {
            if j < first.len() {
                assert(descriptions(worktrees)[j] == first[j]);
            } else {
                assert(descriptions(worktrees)[j] == descriptions(rest)[j - first.len()]);
            }
        }
    }
}

proof fn lemma_no_newline(a: Seq<u8>, b: Seq<u8>)
    requires
        !a.contains(NEWLINE),
        !b.contains(NEWLINE),
    ensures
        !(a + b).contains(NEWLINE),
{
    let both = a + b;
    if both.contains(NEWLINE) {
        let i = choose|i: int| 0 <= i < both.len() && both[i] == NEWLINE;
        if i < a.len() {
            assert(a[i] == NEWLINE);
        } else {
            assert(b[i - a.len()] == NEWLINE);
        }
    }
}

/// A printed listing is read back: parsing gives the worktrees that were printed, provided
/// that no path and no commit name holds a line terminator.
pub proof fn a_printed_listing_is_read_back(worktrees: Seq<Checkout>)
    requires
        forall|i: int|
            0 <= i < worktrees.len() ==> !(#[trigger] worktrees[i]).path.contains(NEWLINE) && (
            worktrees[i].head matches Some(head) ==> !encode_utf8(head).contains(NEWLINE)),
    ensures
        listed(bytes::split_on(printed(worktrees), NEWLINE), None) == worktrees,
{
    let lines = descriptions(worktrees);
    let terminated = lines.push(Seq::empty());
    lemma_description_lines(worktrees);
    assert forall|i: int| 0 <= i < terminated.len() implies !(#[trigger] terminated[i]).contains(
        NEWLINE,
    ) by {
        if i < lines.len() {
            assert(terminated[i] == lines[i]);
        }
    }
    bytes::join_then_split(terminated, NEWLINE);
    let last = seq![Seq::<u8>::empty()];
    assert(terminated =~= lines + last);
    lemma_descriptions(worktrees, last);
    assert(last =~= last + Seq::<Seq<u8>>::empty());
    lemma_listed_line(Seq::empty(), Seq::empty(), None);
    assert(worktrees + listed(last, None) =~= worktrees);
}

/// Paths of which each is followed by a NUL hold one NUL per path.
proof fn lemma_ended_paths(paths: Seq<Seq<u8>>)
    requires
        forall|i: int| 0 <= i < paths.len() ==> !(#[trigger] paths[i]).contains(0u8),
    ensures
        bytes::count_of(bytes::join_with(paths.push(Seq::empty()), 0), 0) == paths.len(),
    decreases paths.len(),
{
    let all = paths.push(Seq::empty());
    if paths.len() == 0 {
        assert(all[0] =~= Seq::<u8>::empty());
    } else {
        let rest = paths.drop_first();
        assert(all.drop_first() =~= rest.push(Seq::empty()));
        assert forall|i: int| 0 <= i < rest.len() implies !(#[trigger] rest[i]).contains(
            0u8,
        ) by {
            assert(rest[i] == paths[i + 1]);
        }
        lemma_ended_paths(rest);
        let more = bytes::join_with(rest.push(Seq::empty()), 0);
        bytes::every_occurrence_counts(paths[0], seq![0u8], 0);
        bytes::every_occurrence_counts(paths[0] + seq![0u8], more, 0);
    }
}

/// A checkout with a commit is as far as git prints paths: each path, ended by a NUL, counts
/// once. One without a commit, or about which git could not be asked, is farther than any
/// number of paths.
pub proof fn each_differing_path_counts_once(worktree: Checkout, paths: Seq<Seq<u8>>)
    requires
        forall|i: int| 0 <= i < paths.len() ==> !(#[trigger] paths[i]).contains(0u8),
    ensures
        ({
            let printed = bytes::join_with(paths.push(Seq::empty()), 0);
            &&& worktree.head is Some ==> distance(worktree, Some(printed)) == paths.len()
            &&& worktree.head is None ==> distance(worktree, Some(printed)) == usize::MAX
            &&& distance(worktree, None) == usize::MAX
        }),
{
    lemma_ended_paths(paths);
}

/// Of two checkouts that git can compare, the one with fewer differing paths is closer, and
/// the farther one is never chosen while the closer is a candidate.
pub proof fn fewer_differing_paths_are_closer(
    worktrees: Seq<Checkout>,
    candidates: Seq<int>,
    diffs: Seq<Option<Seq<u8>>>,
    near: int,
    far: int,
    few: Seq<Seq<u8>>,
    many: Seq<Seq<u8>>,
)
    requires
        0 <= near < candidates.len(),
        0 <= far < candidates.len(),
        worktrees[candidates[near]].head is Some,
        worktrees[candidates[far]].head is Some,
        forall|i: int| 0 <= i < few.len() ==> !(#[trigger] few[i]).contains(0u8),
        forall|i: int| 0 <= i < many.len() ==> !(#[trigger] many[i]).contains(0u8),
        diffs[candidates[near]] == Some(bytes::join_with(few.push(Seq::empty()), 0)),
        diffs[candidates[far]] == Some(bytes::join_with(many.push(Seq::empty()), 0)),
        few.len() < many.len() || few.len() == many.len() && near < far,
    ensures
        !is_closest(worktrees, candidates, diffs, far),
{
    each_differing_path_counts_once(worktrees[candidates[near]], few);
    each_differing_path_counts_once(worktrees[candidates[far]], many);
    if is_closest(worktrees, candidates, diffs, far) {
        assert(distance(worktrees[candidates[near]], diffs[candidates[near]]) == few.len());
        assert(distance(worktrees[candidates[far]], diffs[candidates[far]]) == many.len());
    }
}

/// The first candidate at the least distance.
proof fn lemma_some_closest(
    worktrees: Seq<Checkout>,
    candidates: Seq<int>,
    diffs: Seq<Option<Seq<u8>>>,
    n: int,
) -> (k: int)
    requires
        0 < n <= candidates.len(),
    ensures
        is_closest(worktrees, candidates.take(n), diffs, k),
    decreases n,
{
    if n == 1 {
        0
    } else {
        let k = lemma_some_closest(worktrees, candidates, diffs, n - 1);
        let shorter = candidates.take(n - 1);
        let longer = candidates.take(n);
        assert(longer.drop_last() =~= shorter);
        assert(forall|l: int| 0 <= l < n - 1 ==> longer[l] == shorter[l]);
        if distance(worktrees[longer[n - 1]], diffs[longer[n - 1]]) < distance(
            worktrees[longer[k]],
            diffs[longer[k]],
        ) {
            n - 1
        } else {
            k
        }
    }
}

/// Where there is a candidate one is the closest; it is at least as close as every other, and
/// closer than every one that is preferred to it.
pub proof fn the_closest_candidate_is_found(
    worktrees: Seq<Checkout>,
    candidates: Seq<int>,
    diffs: Seq<Option<Seq<u8>>>,
)
    ensures
        candidates.len() > 0 ==> exists|k: int| is_closest(worktrees, candidates, diffs, k),
        forall|k: int, l: int|
            #![trigger is_closest(worktrees, candidates, diffs, k), candidates[l]]
            is_closest(worktrees, candidates, diffs, k) && 0 <= l < candidates.len() ==> {
                let chosen = distance(worktrees[candidates[k]], diffs[candidates[k]]);
                let other = distance(worktrees[candidates[l]], diffs[candidates[l]]);
                0 <= k < candidates.len() && chosen <= other && (l < k ==> chosen < other)
            },
{
    if candidates.len() > 0 {
        let k = lemma_some_closest(worktrees, candidates, diffs, candidates.len() as int);
        assert(candidates.take(candidates.len() as int) =~= candidates);
    }
}

/// What can serve is a directory with files in it, not the destination, that is neither bare
/// nor prunable and not known to be on another device.
pub proof fn what_can_serve_holds_files_on_the_same_device(
    worktree: Checkout,
    observed: Observed,
    destination: Seq<u8>,
    device: Option<u64>,
    windows: bool,
)
    ensures
        worktree.bare ==> !can_serve(worktree, observed, destination, device, windows),
        worktree.prunable ==> !can_serve(worktree, observed, destination, device, windows),
        !observed.directory ==> !can_serve(worktree, observed, destination, device, windows),
        worktree.path == destination ==> !can_serve(
            worktree,
            observed,
            destination,
            device,
            windows,
        ),
        device is Some && observed.device is Some && device != observed.device ==> !can_serve(
            worktree,
            observed,
            destination,
            device,
            windows,
        ),
        !worktree.bare && !worktree.prunable && observed.directory && paths::parts(
            worktree.path,
            windows,
        ) != paths::parts(destination, windows) && (device is None || observed.device is None
            || device == observed.device) ==> can_serve(
            worktree,
            observed,
            destination,
            device,
            windows,
        ),
{
}

/// Where the positions that can serve stand among all.
proof fn lemma_serving_at(
    positions: Seq<int>,
    worktrees: Seq<Checkout>,
    observed: Seq<Observed>,
    destination: Seq<u8>,
    device: Option<u64>,
    windows: bool,
) -> (at: Seq<int>)
    ensures
        ({
            let found = serving(positions, worktrees, observed, destination, device, windows);
            &&& at.len() == found.len()
            &&& forall|k: int|
                0 <= k < at.len() ==> 0 <= #[trigger] at[k] < positions.len() && found[k]
                    == positions[at[k]]
            &&& forall|k: int, l: int|
                0 <= k < l < at.len() ==> #[trigger] at[k] < #[trigger] at[l]
            &&& forall|a: int|
                0 <= a < positions.len() ==> (at.contains(a) <==> can_serve(
                    worktrees[#[trigger] positions[a]],
                    observed[positions[a]],
                    destination,
                    device,
                    windows,
                ))
        }),
    decreases positions.len(),
{
    if positions.len() == 0 {
        Seq::empty()
    } else {
        let start = positions.drop_last();
        let before = lemma_serving_at(start, worktrees, observed, destination, device, windows);
        let last = positions.last();
        let n = positions.len() - 1;
        let able = can_serve(worktrees[last], observed[last], destination, device, windows);
        let at = if able {
            before.push(n)
        } else {
            before
        };
        assert forall|a: int| 0 <= a < positions.len() implies (at.contains(a) <==> can_serve(
            worktrees[#[trigger] positions[a]],
            observed[positions[a]],
            destination,
            device,
            windows,
        )) by {
            bytes::lemma_push_contains(before, n, a);
            if a < n {
                assert(positions[a] == start[a]);
            } else if before.contains(a) {
                let k = choose|k: int| 0 <= k < before.len() && before[k] == a;
                assert(before[k] < n);
            }
        }
        at
    }
}

/// The candidates are the first five in the order of preference that can serve, or all where
/// there are fewer, and they keep that order.
pub proof fn the_first_five_that_can_serve_are_candidates(
    worktrees: Seq<Checkout>,
    observed: Seq<Observed>,
    current: Option<Seq<u8>>,
    destination: Seq<u8>,
    device: Option<u64>,
    windows: bool,
)
    ensures
        ({
            let times = Seq::new(observed.len(), |i: int| observed[i].modified);
            let order = preference_order(worktrees, current, times, windows);
            let found = candidate_positions(
                worktrees,
                observed,
                current,
                destination,
                device,
                windows,
            );
            exists|at: Seq<int>|
                {
                    &&& #[trigger] at.len() == found.len()
                    &&& at.len() <= 5
                    &&& forall|k: int|
                        0 <= k < at.len() ==> 0 <= #[trigger] at[k] < order.len() && found[k]
                            == order[at[k]] && can_serve(
                            worktrees[order[at[k]]],
                            observed[order[at[k]]],
                            destination,
                            device,
                            windows,
                        )
                    &&& forall|k: int, l: int|
                        0 <= k < l < at.len() ==> #[trigger] at[k] < #[trigger] at[l]
                    &&& forall|a: int|
                        0 <= a < order.len() && can_serve(
                            worktrees[#[trigger] order[a]],
                            observed[order[a]],
                            destination,
                            device,
                            windows,
                        ) && !at.contains(a) ==> at.len() == 5 && at[4] < a
                }
        }),
{
    let times = Seq::new(observed.len(), |i: int| observed[i].modified);
    assert(times =~= modification_times(observed));
    let order = preference_order(worktrees, current, times, windows);
    let found = candidate_positions(worktrees, observed, current, destination, device, windows);
    let all = lemma_serving_at(order, worktrees, observed, destination, device, windows);
    let at = if all.len() > 5 {
        all.take(5)
    } else {
        all
    };
    assert forall|k: int| 0 <= k < at.len() implies 0 <= #[trigger] at[k] < order.len() && found[k]
        == order[at[k]] && can_serve(
        worktrees[order[at[k]]],
        observed[order[at[k]]],
        destination,
        device,
        windows,
    ) by {
        assert(at[k] == all[k]);
        assert(all.contains(all[k]));
    }
    assert forall|a: int|
        0 <= a < order.len() && can_serve(
            worktrees[#[trigger] order[a]],
            observed[order[a]],
            destination,
            device,
            windows,
        ) && !at.contains(a) implies at.len() == 5 && at[4] < a by {
        assert(all.contains(a));
        let k = choose|k: int| 0 <= k < all.len() && all[k] == a;
        if k < at.len() {
            assert(at[k] == a);
        } else {
            assert(all[4] < all[k]);
        }
    }
    assert(at.len() == found.len());
}

/// Apart from the current checkout and the main worktree, what was modified later goes
/// first. What was modified at an unknown time goes last, and at the same time what is
/// listed later goes first.
pub proof fn what_was_modified_later_goes_first(
    worktrees: Seq<Checkout>,
    current: Option<Seq<u8>>,
    modified: Seq<Option<i128>>,
    i: int,
    j: int,
    windows: bool,
)
    requires
        modified.len() == worktrees.len(),
        0 <= i < worktrees.len(),
        0 <= j < worktrees.len(),
        paths::parts(worktrees[i].path, windows) != paths::parts(worktrees[0].path, windows),
        paths::parts(worktrees[j].path, windows) != paths::parts(worktrees[0].path, windows),
        current matches Some(here) ==> paths::parts(worktrees[i].path, windows) != paths::parts(
            here,
            windows,
        ) && paths::parts(worktrees[j].path, windows) != paths::parts(here, windows),
        ({
            ||| modified[i] is Some && modified[j] is None
            ||| modified[i] is Some && modified[j] is Some && modified[i]->Some_0
                > modified[j]->Some_0
            ||| modified[i] == modified[j] && i > j
        }),
    ensures
        exists|a: int, b: int|
            0 <= a < b < preference_order(worktrees, current, modified, windows).len()
                && #[trigger] preference_order(worktrees, current, modified, windows)[a] == i
                && #[trigger] preference_order(worktrees, current, modified, windows)[b] == j,
{
    a_preference_order_exists(worktrees, current, modified, windows);
    let (leading, rest) = choose|leading: Seq<int>, rest: Seq<int>|
        is_preference_order(worktrees, current, modified, leading, rest, windows);
    preference_order_is_unique(worktrees, current, modified, leading, rest, windows);
    let order = preference_order(worktrees, current, modified, windows);
    if exists|k: int| is_current(worktrees, current, k, windows) {
        let k = choose|k: int| is_current(worktrees, current, k, windows);
        assert(is_current(worktrees, current, k, windows));
    }
    assert(!is_led(worktrees, leading, i, windows));
    assert(!is_led(worktrees, leading, j, windows));
    assert(rest.contains(i) && rest.contains(j));
    let k = choose|k: int| 0 <= k < rest.len() && rest[k] == i;
    let l = choose|l: int| 0 <= l < rest.len() && rest[l] == j;
    if l < k {
        assert(ahead(modified, rest[l], rest[k]));
    }
    assert(order[leading.len() + k] == i);
    assert(order[leading.len() + l] == j);
}

/// The first listed worktree at the path the command was run from comes first in the order
/// of preference, and the main worktree next to it if it is another; without one, the main
/// worktree comes first.
pub proof fn the_checkout_run_from_is_preferred(
    worktrees: Seq<Checkout>,
    here: Seq<u8>,
    modified: Seq<Option<i128>>,
    i: int,
    windows: bool,
)
    requires
        modified.len() == worktrees.len(),
        0 <= i < worktrees.len(),
    ensures
        preference_order(worktrees, None, modified, windows).len() > 0,
        preference_order(worktrees, None, modified, windows)[0] == 0,
        paths::parts(worktrees[i].path, windows) == paths::parts(here, windows) && (forall|j: int|
            0 <= j < i ==> paths::parts((#[trigger] worktrees[j]).path, windows) != paths::parts(
                here,
                windows,
            )) ==> {
            let order = preference_order(worktrees, Some(here), modified, windows);
            &&& order.len() > 0
            &&& order[0] == i
            &&& paths::parts(worktrees[0].path, windows) != paths::parts(here, windows)
                ==> order.len() > 1 && order[1] == 0
        },
{
    the_current_checkout_comes_first(worktrees, None, modified, windows);
    the_current_checkout_comes_first(worktrees, Some(here), modified, windows);
    if paths::parts(worktrees[i].path, windows) == paths::parts(here, windows) && (forall|j: int|
        0 <= j < i ==> paths::parts((#[trigger] worktrees[j]).path, windows) != paths::parts(
            here,
            windows,
        )) {
        assert(is_current(worktrees, Some(here), i, windows));
    }
}

/// The checkout the command was run from is added only where no listed worktree is at its
/// path, and then last.
pub proof fn the_checkout_run_from_is_listed_once(
    worktrees: Seq<Checkout>,
    current: Checkout,
    i: int,
    windows: bool,
)
    ensures
        with_current(worktrees, None, windows) == worktrees,
        0 <= i < worktrees.len() && paths::parts(worktrees[i].path, windows) == paths::parts(
            current.path,
            windows,
        ) ==> with_current(worktrees, Some(current), windows) == worktrees,
        (forall|j: int|
            0 <= j < worktrees.len() ==> paths::parts((#[trigger] worktrees[j]).path, windows)
                != paths::parts(current.path, windows)) ==> with_current(
            worktrees,
            Some(current),
            windows,
        ) == worktrees + seq![current],
{
    if 0 <= i < worktrees.len() {
        assert(worktrees[i].path == worktrees[i].path);
    }
    if forall|j: int|
        0 <= j < worktrees.len() ==> paths::parts((#[trigger] worktrees[j]).path, windows)
            != paths::parts(current.path, windows) {
        assert(with_current(worktrees, Some(current), windows) =~= worktrees + seq![current]);
    }
}

/// What the words of a listing start with.
proof fn lemma_listing_starts(line: Seq<u8>)
    ensures
        "worktree ".spec_bytes().len() == 9,
        "HEAD ".spec_bytes().len() == 5,
        "prunable ".spec_bytes().len() == 9,
        "bare".spec_bytes().len() == 4,
        "prunable".spec_bytes().len() == 8,
        "worktree ".spec_bytes()[0] == 0x77,
        "HEAD ".spec_bytes()[0] == 0x48,
        "prunable ".spec_bytes()[0] == 0x70,
        "prunable".spec_bytes()[0] == 0x70,
        "bare".spec_bytes()[0] == 0x62,
        ("worktree ".spec_bytes() + line).skip(9) == line,
        ("HEAD ".spec_bytes() + line).skip(5) == line,
        "worktree ".spec_bytes().is_prefix_of("worktree ".spec_bytes() + line),
        "HEAD ".spec_bytes().is_prefix_of("HEAD ".spec_bytes() + line),
        "prunable ".spec_bytes().is_prefix_of("prunable ".spec_bytes() + line),
{
    reveal_strlit("worktree ");
    reveal_strlit("HEAD ");
    reveal_strlit("prunable ");
    reveal_strlit("prunable");
    reveal_strlit("bare");
    assert(is_ascii("worktree "));
    assert(is_ascii("HEAD "));
    assert(is_ascii("prunable "));
    assert(is_ascii("prunable"));
    assert(is_ascii("bare"));
    assert(("worktree ".spec_bytes() + line).skip(9) =~= line);
    assert(("HEAD ".spec_bytes() + line).skip(5) =~= line);
    assert(("worktree ".spec_bytes() + line).take(9) =~= "worktree ".spec_bytes());
    assert(("HEAD ".spec_bytes() + line).take(5) =~= "HEAD ".spec_bytes());
    assert(("prunable ".spec_bytes() + line).take(9) =~= "prunable ".spec_bytes());
}

/// A listing opens a worktree with its path and nothing else said of it, and closes the one
/// before. It ends one at an empty line and at its own end.
pub proof fn a_listing_opens_and_closes(
    path: Seq<u8>,
    more: Seq<Seq<u8>>,
    worktree: Checkout,
)
    ensures
        ({
            let fresh = Checkout { path, head: None, bare: false, prunable: false };
            let opening = seq!["worktree ".spec_bytes() + path] + more;
            let empty = seq![Seq::<u8>::empty()] + more;
            &&& listed(opening, None) == listed(more, Some(fresh))
            &&& listed(opening, Some(worktree)) == seq![worktree] + listed(more, Some(fresh))
            &&& listed(empty, None) == listed(more, None)
            &&& listed(empty, Some(worktree)) == seq![worktree] + listed(more, None)
            &&& listed(Seq::empty(), Some(worktree)) == seq![worktree]
            &&& listed(Seq::empty(), None) == Seq::<Checkout>::empty()
        }),
{
    lemma_listing_starts(path);
    let line = "worktree ".spec_bytes() + path;
    let fresh = Checkout { path, head: None, bare: false, prunable: false };
    let opening = seq![line] + more;
    let empty = seq![Seq::<u8>::empty()] + more;
    assert(opening[0] == line);
    assert(opening.skip(1) =~= more);
    assert(empty.skip(1) =~= more);
    assert(opened(line) == fresh);
    assert(Seq::<Checkout>::empty() + listed(more, Some(fresh)) =~= listed(more, Some(fresh)));
    assert(Seq::<Checkout>::empty() + listed(more, None) =~= listed(more, None));
}

/// Each line of a description says one thing and leaves the rest as it was: the commit, where
/// it is text, that the worktree is bare, or that it is prunable, with or without a reason.
/// Any other line says nothing.
pub proof fn each_line_says_its_own(
    worktree: Checkout,
    text: Seq<u8>,
    line: Seq<u8>,
    more: Seq<Seq<u8>>,
)
    ensures
        valid_utf8(text) ==> listed(seq!["HEAD ".spec_bytes() + text] + more, Some(worktree))
            == listed(more, Some(Checkout { head: Some(decode_utf8(text)), ..worktree })),
        !valid_utf8(text) ==> listed(seq!["HEAD ".spec_bytes() + text] + more, Some(worktree))
            == listed(more, Some(Checkout { head: None, ..worktree })),
        listed(seq!["bare".spec_bytes()] + more, Some(worktree)) == listed(
            more,
            Some(Checkout { bare: true, ..worktree }),
        ),
        listed(seq!["prunable".spec_bytes()] + more, Some(worktree)) == listed(
            more,
            Some(Checkout { prunable: true, ..worktree }),
        ),
        listed(seq!["prunable ".spec_bytes() + text] + more, Some(worktree)) == listed(
            more,
            Some(Checkout { prunable: true, ..worktree }),
        ),
        line.len() > 0 && line[0] != 0x77 && line[0] != 0x48 && line[0] != 0x70 && line[0] != 0x62
            ==> listed(seq![line] + more, Some(worktree)) == listed(more, Some(worktree)),
        line.len() > 0 && line[0] != 0x77 ==> listed(seq![line] + more, None) == listed(
            more,
            None,
        ),
{
    lemma_listing_starts(text);
    let words = seq![
        "HEAD ".spec_bytes() + text,
        "bare".spec_bytes(),
        "prunable".spec_bytes(),
        "prunable ".spec_bytes() + text,
        line,
    ];
    assert forall|i: int| 0 <= i < 5 implies (seq![#[trigger] words[i]] + more).skip(1) == more by {
        assert((seq![words[i]] + more).skip(1) =~= more);
    }
    assert(words[0][0] == 0x48 && words[3][0] == 0x70);
    lemma_not_prefix("worktree ".spec_bytes(), words[0]);
    lemma_not_prefix("worktree ".spec_bytes(), words[1]);
    lemma_not_prefix("worktree ".spec_bytes(), words[2]);
    lemma_not_prefix("worktree ".spec_bytes(), words[3]);
    lemma_not_prefix("HEAD ".spec_bytes(), words[1]);
    lemma_not_prefix("HEAD ".spec_bytes(), words[2]);
    lemma_not_prefix("HEAD ".spec_bytes(), words[3]);
    if line.len() > 0 {
        lemma_not_prefix("worktree ".spec_bytes(), line);
        lemma_not_prefix("HEAD ".spec_bytes(), line);
        lemma_not_prefix("prunable ".spec_bytes(), line);
    }
    assert((seq![words[0]] + more)[0] == words[0]);
    assert((seq![words[1]] + more)[0] == words[1]);
    assert((seq![words[2]] + more)[0] == words[2]);
    assert((seq![words[3]] + more)[0] == words[3]);
    assert((seq![words[4]] + more)[0] == words[4]);
}

/// What starts otherwise does not start with a prefix.
proof fn lemma_not_prefix(prefix: Seq<u8>, line: Seq<u8>)
    requires
        prefix.len() > 0,
        line.len() > 0,
    ensures
        prefix[0] != line[0] ==> !prefix.is_prefix_of(line),
{
    if prefix.is_prefix_of(line) {
        assert(line.take(prefix.len() as int)[0] == line[0]);
    }
}

/// A drive in the spelling of MSYS becomes one in the spelling of Windows, with its letter in
/// upper case and the rest of the path as it is; anything else is no drive.
pub proof fn only_a_letter_alone_names_a_drive(letter: u8, rest: Seq<u8>)
    requires
        rest.len() > 0 ==> rest[0] == 0x2f,
        valid_utf8(seq![0x2fu8, letter] + rest),
    ensures
        0x61 <= letter <= 0x7a ==> drive_path(seq![0x2fu8, letter] + rest) == Some(
            seq![(letter - 0x20) as u8, 0x3au8] + rest,
        ),
        0x41 <= letter <= 0x5a ==> drive_path(seq![0x2fu8, letter] + rest) == Some(
            seq![letter, 0x3au8] + rest,
        ),
        !(0x61 <= letter <= 0x7a) && !(0x41 <= letter <= 0x5a) ==> drive_path(
            seq![0x2fu8, letter] + rest,
        ) is None,
{
    let path = seq![0x2fu8, letter] + rest;
    assert(path.skip(2) =~= rest);
    if rest.len() > 0 {
        assert(path[2] == rest[0]);
    }
}

/// What is not text, too short, does not start with a slash, or goes on after its first name's
/// letter names no drive.
pub proof fn other_paths_name_no_drive(path: Seq<u8>)
    ensures
        !valid_utf8(path) ==> drive_path(path) is None,
        path.len() < 2 ==> drive_path(path) is None,
        path.len() > 0 && path[0] != 0x2f ==> drive_path(path) is None,
        path.len() > 2 && path[2] != 0x2f ==> drive_path(path) is None,
{
}

/// Paths are taken as git prints them, save on Windows: there the canonical form is taken
/// where there is one, without the four bytes that make it verbatim, and else the spelling
/// with a drive.
pub proof fn native_paths_are_canonical_on_windows(
    path: Seq<u8>,
    canonical: Seq<u8>,
    text: Seq<u8>,
)
    ensures
        native(path, Some((canonical, text)), false) == path,
        native(path, None, false) == path,
        drive_path(path) is None ==> native(path, None, true) == path,
        (drive_path(path) matches Some(drive) ==> native(path, None, true) == drive),
        native(path, Some((canonical, seq![0x5cu8, 0x5c, 0x3f, 0x5c] + text)), true) == text,
        text.len() < 4 || text[0] != 0x5c || text[2] != 0x3f ==> native(
            path,
            Some((canonical, text)),
            true,
        ) == canonical,
{
    reveal_strlit("\\\\?\\");
    assert(is_ascii("\\\\?\\"));
    let start = "\\\\?\\".spec_bytes();
    assert(start =~= seq![0x5cu8, 0x5c, 0x3f, 0x5c]);
    let long = seq![0x5cu8, 0x5c, 0x3f, 0x5c] + text;
    assert(long.take(4) =~= start);
    assert(start.is_prefix_of(long));
    assert(long.skip(4) =~= text);
    if start.is_prefix_of(text) {
        assert(text.take(4)[0] == text[0]);
        assert(text.take(4)[2] == text[2]);
    }
}

/// The contents of a worktree are all that it holds.
pub proof fn contents_leave_nothing_out(worktree: Worktree)
    ensures
        worktree@.path == worktree.path@,
        worktree@.bare == worktree.bare,
        worktree@.prunable == worktree.prunable,
        worktree.head is None <==> worktree@.head is None,
        worktree.head matches Some(text) ==> worktree@.head == Some(text@),
{
}

/// The question about differences names the checkout's commit first and the target last.
pub proof fn differences_are_asked_from_head_to_target(head: Seq<u8>, target: Seq<u8>)
    ensures
        diff_command(head, target) == seq![
            "diff-tree".spec_bytes(),
            "-r".spec_bytes(),
            "-z".spec_bytes(),
            "--name-only".spec_bytes(),
        ] + seq![head, target],
{
    assert(diff_command(head, target) =~= seq![
        "diff-tree".spec_bytes(),
        "-r".spec_bytes(),
        "-z".spec_bytes(),
        "--name-only".spec_bytes(),
    ] + seq![head, target]);
}

/// No checkout is preferred twice for going first: whatever comes after the first in the
/// order of preference, or after the main worktree, is at another path.
pub proof fn what_goes_first_does_not_come_again(
    worktrees: Seq<Checkout>,
    current: Option<Seq<u8>>,
    modified: Seq<Option<i128>>,
    k: int,
    l: int,
    windows: bool,
)
    requires
        modified.len() == worktrees.len(),
        0 <= k < l < preference_order(worktrees, current, modified, windows).len(),
        worktrees.len() > 0,
        k == 0 || paths::parts(
            worktrees[preference_order(worktrees, current, modified, windows)[k]].path,
            windows,
        ) == paths::parts(worktrees[0].path, windows),
    ensures
        ({
            let order = preference_order(worktrees, current, modified, windows);
            paths::parts(worktrees[order[l]].path, windows) != paths::parts(
                worktrees[order[k]].path,
                windows,
            )
        }),
{
    a_preference_order_exists(worktrees, current, modified, windows);
    let (leading, rest) = choose|leading: Seq<int>, rest: Seq<int>|
        is_preference_order(worktrees, current, modified, leading, rest, windows);
    let order = preference_order(worktrees, current, modified, windows);
    assert(order == leading + rest);
    if exists|i: int| is_current(worktrees, current, i, windows) {
        let here = choose|i: int| is_current(worktrees, current, i, windows);
        assert(is_current(worktrees, current, here, windows));
    }
    let n = leading.len() as int;
    assert(1 <= n <= 2);
    assert(same_place(worktrees, leading[n - 1], 0, windows));
    if l >= n {
        assert(rest[l - n] == order[l]);
        assert(rest.contains(order[l]));
        assert(!is_led(worktrees, leading, order[l], windows));
        assert(!same_place(worktrees, leading[n - 1], order[l], windows));
        assert(!same_place(worktrees, leading[0], order[l], windows));
        if k < n {
            assert(order[k] == leading[k]);
        } else {
            assert(rest[k - n] == order[k]);
            assert(rest.contains(order[k]));
            assert(!same_place(worktrees, leading[n - 1], order[k], windows));
        }
    } else {
        assert(order[k] == leading[k] && order[l] == leading[l]);
    }
}

} // verus!
