//! Settles which of the paths that might be cloned really are what git would write.

use vstd::prelude::*;
use vstd::string::*;

use crate::bytes;
use crate::sprout::checkout;
use crate::sprout::checkout::Intended;
use crate::sprout::checkout::Planned;

verus! {

/// The most paths worth naming on one `git diff-files` command line.
pub const RACY_PATH_LIMIT: usize = 1000;

/// The byte that ends each path in git's `-z` output and input.
pub const NUL: u8 = 0;

/// Asks git which paths differ from what the index records. Past a certain number of paths
/// the command line stops being a way to name them, so the question is about the whole
/// worktree instead.
pub open spec fn changed_command(paths: Seq<Seq<u8>>) -> Seq<Seq<u8>> {
    let question = seq![
        "diff-files".spec_bytes(),
        "-z".spec_bytes(),
        "--name-only".spec_bytes(),
        "--".spec_bytes(),
    ];
    if paths.len() <= RACY_PATH_LIMIT {
        question + paths
    } else {
        question
    }
}

/// The arguments that ask git which of these paths really differ from what the index
/// records; nothing where there is nothing to ask about.
///
/// Git re-reads them with the repository's filters applied, which is the only correct way to
/// compare a working-tree file to a blob.
pub fn changed_args(paths: &[Vec<u8>]) -> (args: Option<Vec<Vec<u8>>>)
    ensures
        args is Some <==> paths@.len() > 0,
        args matches Some(args) ==> bytes::views(args@) == changed_command(bytes::views(paths@)),
{
    if paths.len() == 0 {
        return None;
    }
    let mut args = vec![
        bytes::word("diff-files"),
        bytes::word("-z"),
        bytes::word("--name-only"),
        bytes::word("--"),
    ];
    assert(bytes::views(args@) =~= seq![
        "diff-files".spec_bytes(),
        "-z".spec_bytes(),
        "--name-only".spec_bytes(),
        "--".spec_bytes(),
    ]);
    if paths.len() <= RACY_PATH_LIMIT {
        bytes::append_all(&mut args, paths);
    }
    Some(args)
}

/// Whether a path counts as changed, given git's answer about some paths. Where git could
/// not be asked, all of them do.
pub open spec fn changed(paths: Seq<Seq<u8>>, output: Option<Seq<u8>>, path: Seq<u8>) -> bool {
    paths.len() > 0 && match output {
        None => paths.contains(path),
        Some(output) => path.len() > 0 && bytes::split_on(output, NUL).contains(path),
    }
}

/// Adds those items of a list that are not empty and not there yet.
fn gather(items: &[Vec<u8>], keep_empty: bool) -> (r: Vec<Vec<u8>>)
    ensures
        bytes::views(r@).no_duplicates(),
        forall|p: Seq<u8>|
            #[trigger] bytes::views(r@).contains(p) <==> (keep_empty || p.len() > 0)
                && bytes::views(items@).contains(p),
{
    let ghost all = bytes::views(items@);
    let mut found: Vec<Vec<u8>> = Vec::new();
    let mut i: usize = 0;
    while i < items.len()
        invariant
            i <= items.len(),
            all == bytes::views(items@),
            bytes::views(found@).no_duplicates(),
            forall|p: Seq<u8>|
                #[trigger] bytes::views(found@).contains(p) <==> (keep_empty || p.len() > 0)
                    && all.take(i as int).contains(p),
        decreases items.len() - i,
    {
        let item = items[i].as_slice();
        let ghost prior = bytes::views(found@);
        let taken = (keep_empty || item.len() > 0) && !bytes::holds(found.as_slice(), item);
        if taken {
            let ghost list = found@;
            found.push(bytes::copy(item));
            proof {
                bytes::lemma_views_push(list, found@.last());
            }
        }
        proof {
            let now = bytes::views(found@);
            assert(all.take(i + 1) =~= all.take(i as int).push(item@));
            assert forall|p: Seq<u8>| #[trigger] now.contains(p) <==> (keep_empty || p.len() > 0)
                && all.take(i + 1).contains(p) by {
                bytes::lemma_push_contains(all.take(i as int), item@, p);
                bytes::lemma_push_contains(prior, item@, p);
                assert(prior.contains(p) <==> (keep_empty || p.len() > 0) && all.take(
                    i as int,
                ).contains(p));
            }
            if taken {
                lemma_push_distinct(prior, item@);
            }
        }
        i = i + 1;
    }
    assert(all.take(i as int) =~= all);
    found
}

proof fn lemma_push_distinct(s: Seq<Seq<u8>>, item: Seq<u8>)
    requires
        s.no_duplicates(),
        !s.contains(item),
    ensures
        s.push(item).no_duplicates(),
{
    let now = s.push(item);
    assert forall|i: int, j: int| 0 <= i < now.len() && 0 <= j < now.len() && i != j implies now[i]
        != now[j] by {
        if i < s.len() && j == s.len() {
            assert(s.contains(s[i]));
        } else if j < s.len() && i == s.len() {
            assert(s.contains(s[j]));
        }
    }
}

/// The paths that really differ from what the index records, each once, given what git
/// answered about some. Paths git cannot be asked about are reported as changed, so they get
/// dropped.
pub fn changed_paths(paths: &[Vec<u8>], output: Option<&[u8]>) -> (r: Vec<Vec<u8>>)
    ensures
        bytes::views(r@).no_duplicates(),
        forall|p: Seq<u8>|
            #[trigger] bytes::views(r@).contains(p) <==> changed(
                bytes::views(paths@),
                bytes::slice_of(output),
                p,
            ),
{
    if paths.len() == 0 {
        return Vec::new();
    }
    match output {
        None => gather(paths, true),
        Some(output) => {
            let reported = bytes::split(output, NUL);
            gather(reported.as_slice(), false)
        },
    }
}

/// A list with an item inserted behind all that do not come after it.
pub open spec fn inserted(list: Seq<Intended>, item: Intended) -> Seq<Intended>
    decreases list.len(),
{
    if list.len() == 0 || !bytes::before(item.path, list.last().path) {
        list.push(item)
    } else {
        inserted(list.drop_last(), item).push(list.last())
    }
}

/// A list in the order of its paths; items with the same path keep their order.
pub open spec fn in_path_order(list: Seq<Intended>) -> Seq<Intended>
    decreases list.len(),
{
    if list.len() == 0 {
        list
    } else {
        inserted(in_path_order(list.drop_last()), list.last())
    }
}

/// Those of a list whose path is not among the changed ones.
pub open spec fn unchanged(list: Seq<Intended>, changed: Set<Seq<u8>>) -> Seq<Intended> {
    list.filter(|planned: Intended| !changed.contains(planned.path))
}

/// The paths to clone once git has settled the ones that the stat cache could not.
pub open spec fn settled(paths: Seq<Intended>, racy: Seq<Intended>, changed: Set<Seq<u8>>) -> Seq<
    Intended,
> {
    in_path_order(paths + unchanged(racy, changed))
}

/// Inserts an item behind all that do not come after it.
fn insert(list: &mut Vec<Planned>, item: Planned)
    ensures
        checkout::intentions(final(list)@) == inserted(checkout::intentions(old(list)@), item@),
{
    let ghost all = checkout::intentions(list@);
    let mut at: usize = list.len();
    assert(all.take(at as int) =~= all);
    assert(all.skip(at as int) =~= Seq::<Intended>::empty());
    assert(inserted(all, item@) =~= inserted(all.take(at as int), item@) + all.skip(at as int));
    while at > 0 && bytes::comes_before(item.path.as_slice(), list[at - 1].path.as_slice())
        invariant
            at <= list.len(),
            all == checkout::intentions(list@),
            inserted(all, item@) == inserted(all.take(at as int), item@) + all.skip(at as int),
        decreases at,
    {
        proof {
            let start = all.take(at as int);
            assert(start.last() == list@[at - 1]@);
            assert(start.drop_last() =~= all.take(at - 1));
            let shorter = inserted(start.drop_last(), item@);
            assert(shorter.push(start.last()) + all.skip(at as int) =~= shorter + all.skip(at - 1));
        }
        at = at - 1;
    }
    proof {
        let start = all.take(at as int);
        if at > 0 {
            assert(start.last() == list@[at - 1]@);
        }
        assert(inserted(start, item@) == start.push(item@));
    }
    list.insert(at, item);
    assert(checkout::intentions(list@) =~= all.take(at as int).push(item@) + all.skip(at as int));
}

/// Inserts copies of those of `more` whose path is not among the changed ones.
fn insert_unchanged(list: &mut Vec<Planned>, more: &[Planned], changed: &[Vec<u8>])
    ensures
        forall|unsorted: Seq<Intended>|
            checkout::intentions(old(list)@) == #[trigger] in_path_order(unsorted)
                ==> checkout::intentions(final(list)@) == in_path_order(
                unsorted + unchanged(checkout::intentions(more@), bytes::views(changed@).to_set()),
            ),
{
    let ghost before = checkout::intentions(list@);
    let ghost all = checkout::intentions(more@);
    let ghost gone = bytes::views(changed@).to_set();
    let mut i: usize = 0;
    proof {
        assert(all.take(0) =~= Seq::<Intended>::empty());
        lemma_unchanged_none(gone);
        assert forall|unsorted: Seq<Intended>|
            before == #[trigger] in_path_order(unsorted) implies before == in_path_order(
            unsorted + unchanged(all.take(0), gone),
        ) by {
            assert(unsorted + unchanged(all.take(0), gone) =~= unsorted);
        }
    }
    while i < more.len()
        invariant
            i <= more.len(),
            all == checkout::intentions(more@),
            gone == bytes::views(changed@).to_set(),
            before == checkout::intentions(old(list)@),
            forall|unsorted: Seq<Intended>|
                before == #[trigger] in_path_order(unsorted) ==> checkout::intentions(list@)
                    == in_path_order(unsorted + unchanged(all.take(i as int), gone)),
        decreases more.len() - i,
    {
        let planned = &more[i];
        let ghost prior = checkout::intentions(list@);
        let kept = !bytes::holds(changed, planned.path.as_slice());
        if kept {
            insert(list, planned.clone());
        }
        proof {
            let next = all.take(i + 1);
            assert(next.drop_last() =~= all.take(i as int));
            assert(next.last() == planned@);
            lemma_unchanged_step(next, gone);
            assert forall|unsorted: Seq<Intended>|
                before == #[trigger] in_path_order(unsorted) implies checkout::intentions(list@)
                == in_path_order(unsorted + unchanged(next, gone)) by {
                let longer = unsorted + unchanged(next, gone);
                assert(prior == in_path_order(unsorted + unchanged(all.take(i as int), gone)));
                if kept {
                    assert(longer.drop_last() =~= unsorted + unchanged(all.take(i as int), gone));
                    assert(longer.last() == planned@);
                }
            }
        }
        i = i + 1;
    }
    assert(all.take(i as int) =~= all);
}

proof fn lemma_unchanged_none(changed: Set<Seq<u8>>)
    ensures
        unchanged(Seq::empty(), changed) == Seq::<Intended>::empty(),
{
    reveal(Seq::filter);
    assert(unchanged(Seq::empty(), changed) =~= Seq::<Intended>::empty());
}

proof fn lemma_unchanged_step(list: Seq<Intended>, changed: Set<Seq<u8>>)
    requires
        list.len() > 0,
    ensures
        unchanged(list, changed) == if changed.contains(list.last().path) {
            unchanged(list.drop_last(), changed)
        } else {
            unchanged(list.drop_last(), changed).push(list.last())
        },
{
    reveal(Seq::filter);
}

/// Merges the paths that git found unchanged into the ones that needed no asking, in the
/// order of their paths.
pub fn settle(paths: &[Planned], racy: &[Planned], changed: &[Vec<u8>]) -> (r: Vec<Planned>)
    ensures
        checkout::intentions(r@) == settled(
            checkout::intentions(paths@),
            checkout::intentions(racy@),
            bytes::views(changed@).to_set(),
        ),
{
    let mut list: Vec<Planned> = Vec::new();
    let none: Vec<Vec<u8>> = Vec::new();
    let ghost start = Seq::<Intended>::empty();
    let ghost all = checkout::intentions(paths@);
    assert(checkout::intentions(list@) =~= in_path_order(start));
    insert_unchanged(&mut list, paths, none.as_slice());
    proof {
        lemma_unchanged_all(all, bytes::views(none@).to_set());
        assert(start + all =~= all);
        assert(checkout::intentions(list@) == in_path_order(all));
    }
    insert_unchanged(&mut list, racy, changed);
    list
}

proof fn lemma_unchanged_all(list: Seq<Intended>, changed: Set<Seq<u8>>)
    requires
        forall|p: Seq<u8>| !(#[trigger] changed.contains(p)),
    ensures
        unchanged(list, changed) == list,
    decreases list.len(),
{
    if list.len() == 0 {
        lemma_unchanged_none(changed);
        assert(list =~= Seq::<Intended>::empty());
    } else {
        lemma_unchanged_step(list, changed);
        lemma_unchanged_all(list.drop_last(), changed);
        assert(list.drop_last().push(list.last()) =~= list);
    }
}

/// Whether no path comes after one that it goes before.
pub open spec fn path_ordered(list: Seq<Intended>) -> bool {
    forall|i: int, j: int|
        0 <= i < j < list.len() ==> !bytes::before(
            (#[trigger] list[j]).path,
            (#[trigger] list[i]).path,
        )
}

proof fn lemma_inserted(list: Seq<Intended>, item: Intended)
    requires
        path_ordered(list),
    ensures
        path_ordered(inserted(list, item)),
        forall|x: Intended|
            #[trigger] inserted(list, item).contains(x) <==> list.contains(x) || x == item,
    decreases list.len(),
{
    if list.len() == 0 || !bytes::before(item.path, list.last().path) {
        let now = list.push(item);
        assert forall|x: Intended| #[trigger] now.contains(x) <==> list.contains(x) || x
            == item by {
            if list.contains(x) {
                let i = choose|i: int| 0 <= i < list.len() && list[i] == x;
                assert(now[i] == x);
            }
            if x == item {
                assert(now[list.len() as int] == x);
            }
        }
        assert forall|i: int, j: int| 0 <= i < j < now.len() implies !bytes::before(
            (#[trigger] now[j]).path,
            (#[trigger] now[i]).path,
        ) by {
            if j == list.len() && i < list.len() - 1 {
                lemma_not_before(item.path, list.last().path, list[i].path);
            }
        }
    } else {
        let start = list.drop_last();
        let last = list.last();
        lemma_inserted(start, item);
        let shorter = inserted(start, item);
        let now = shorter.push(last);
        assert forall|x: Intended| #[trigger] now.contains(x) <==> list.contains(x) || x
            == item by {
            if now.contains(x) {
                let i = choose|i: int| 0 <= i < now.len() && now[i] == x;
                if i < shorter.len() {
                    assert(shorter.contains(x));
                    if start.contains(x) {
                        let k = choose|k: int| 0 <= k < start.len() && start[k] == x;
                        assert(list[k] == x);
                    }
                } else {
                    assert(list[list.len() - 1] == x);
                }
            }
            if list.contains(x) || x == item {
                if x == last {
                    assert(now[shorter.len() as int] == x);
                } else {
                    if list.contains(x) {
                        let k = choose|k: int| 0 <= k < list.len() && list[k] == x;
                        assert(start[k] == x);
                    }
                    assert(shorter.contains(x));
                    let i = choose|i: int| 0 <= i < shorter.len() && shorter[i] == x;
                    assert(now[i] == x);
                }
            }
        }
        assert forall|i: int, j: int| 0 <= i < j < now.len() implies !bytes::before(
            (#[trigger] now[j]).path,
            (#[trigger] now[i]).path,
        ) by {
            if j == shorter.len() {
                assert(shorter.contains(shorter[i]));
                if shorter[i] == item {
                    if bytes::before(last.path, item.path) {
                        bytes::lemma_before_transitive(item.path, last.path, item.path);
                        bytes::lemma_before_irreflexive(item.path);
                    }
                } else {
                    assert(start.contains(shorter[i]));
                    let k = choose|k: int| 0 <= k < start.len() && start[k] == shorter[i];
                    assert(list[k] == shorter[i]);
                    assert(list[list.len() - 1] == last);
                }
            }
        }
    }
}

proof fn lemma_not_before(a: Seq<u8>, b: Seq<u8>, c: Seq<u8>)
    requires
        !bytes::before(a, b),
        !bytes::before(b, c),
    ensures
        !bytes::before(a, c),
{
    if bytes::before(a, c) {
        bytes::lemma_before_total(b, c);
        if b != c {
            bytes::lemma_before_transitive(a, c, b);
        }
    }
}

proof fn lemma_in_path_order(list: Seq<Intended>)
    ensures
        path_ordered(in_path_order(list)),
        forall|x: Intended| #[trigger] in_path_order(list).contains(x) <==> list.contains(x),
    decreases list.len(),
{
    if list.len() > 0 {
        let start = list.drop_last();
        lemma_in_path_order(start);
        lemma_inserted(in_path_order(start), list.last());
        assert forall|x: Intended| #[trigger] in_path_order(list).contains(x) <==> list.contains(
            x,
        ) by {
            assert(in_path_order(start).contains(x) <==> start.contains(x));
            if start.contains(x) {
                let k = choose|k: int| 0 <= k < start.len() && start[k] == x;
                assert(list[k] == x);
            }
            if list.contains(x) {
                let k = choose|k: int| 0 <= k < list.len() && list[k] == x;
                if k < start.len() {
                    assert(start[k] == x);
                }
            }
            if x == list.last() {
                assert(list[list.len() - 1] == x);
            }
        }
    }
}

/// The settled paths are exactly those that needed no asking and those that git found
/// unchanged, in the order of their paths.
pub proof fn settled_paths_are_unchanged(
    paths: Seq<Intended>,
    racy: Seq<Intended>,
    changed: Set<Seq<u8>>,
)
    ensures
        path_ordered(settled(paths, racy, changed)),
        forall|x: Intended|
            #[trigger] settled(paths, racy, changed).contains(x) <==> paths.contains(x)
                || racy.contains(x) && !changed.contains(x.path),
{
    let rest = unchanged(racy, changed);
    lemma_in_path_order(paths + rest);
    assert forall|x: Intended| #[trigger] settled(paths, racy, changed).contains(x)
        <==> paths.contains(x) || racy.contains(x) && !changed.contains(x.path) by {
        assert(in_path_order(paths + rest).contains(x) <==> (paths + rest).contains(x));
        if (paths + rest).contains(x) {
            let k = choose|k: int| 0 <= k < (paths + rest).len() && (paths + rest)[k] == x;
            if k < paths.len() {
                assert(paths[k] == x);
            } else {
                assert(rest[k - paths.len()] == x);
                assert(rest.contains(x));
                lemma_filtered(racy, changed, x);
            }
        }
        if paths.contains(x) {
            let k = choose|k: int| 0 <= k < paths.len() && paths[k] == x;
            assert((paths + rest)[k] == x);
        }
        if racy.contains(x) && !changed.contains(x.path) {
            lemma_filtered(racy, changed, x);
            let k = choose|k: int| 0 <= k < rest.len() && rest[k] == x;
            assert((paths + rest)[k + paths.len()] == x);
        }
    }
}

proof fn lemma_filtered(list: Seq<Intended>, changed: Set<Seq<u8>>, x: Intended)
    ensures
        unchanged(list, changed).contains(x) <==> list.contains(x) && !changed.contains(x.path),
    decreases list.len(),
{
    let kept = unchanged(list, changed);
    if list.len() == 0 {
        lemma_unchanged_none(changed);
        assert(list =~= Seq::<Intended>::empty());
    } else {
        let start = list.drop_last();
        let before = unchanged(start, changed);
        lemma_filtered(start, changed, x);
        lemma_unchanged_step(list, changed);
        if list.contains(x) {
            let k = choose|k: int| 0 <= k < list.len() && list[k] == x;
            if k < start.len() {
                assert(start[k] == x);
            }
        }
        if start.contains(x) {
            let k = choose|k: int| 0 <= k < start.len() && start[k] == x;
            assert(list[k] == x);
        }
        if x == list.last() {
            assert(list[list.len() - 1] == x);
            if !changed.contains(x.path) {
                assert(kept[before.len() as int] == x);
            }
        }
        if before.contains(x) {
            let k = choose|k: int| 0 <= k < before.len() && before[k] == x;
            assert(kept[k] == x);
        }
        if kept.contains(x) {
            let k = choose|k: int| 0 <= k < kept.len() && kept[k] == x;
            if k < before.len() {
                assert(before[k] == x);
            }
        }
    }
}

/// What is written to `git check-attr --stdin`: every path, each ended by a NUL.
pub open spec fn attribute_request(paths: Seq<Intended>) -> Seq<u8>
    decreases paths.len(),
{
    if paths.len() == 0 {
        Seq::empty()
    } else {
        (attribute_request(paths.drop_last()) + paths.last().path).push(NUL)
    }
}

/// What is written to `git check-attr --stdin` to ask about these paths.
pub fn attribute_input(paths: &[Planned]) -> (r: Vec<u8>)
    ensures
        r@ == attribute_request(checkout::intentions(paths@)),
{
    let ghost all = checkout::intentions(paths@);
    let mut request: Vec<u8> = Vec::new();
    let mut i: usize = 0;
    assert(all.take(0) =~= Seq::<Intended>::empty());
    while i < paths.len()
        invariant
            i <= paths.len(),
            all == checkout::intentions(paths@),
            request@ == attribute_request(all.take(i as int)),
        decreases paths.len() - i,
    {
        assert(all.take(i + 1).drop_last() =~= all.take(i as int));
        assert(all.take(i + 1).last() == paths@[i as int]@);
        let mut path = bytes::copy(paths[i].path.as_slice());
        request.append(&mut path);
        request.push(NUL);
        i = i + 1;
    }
    assert(all.take(i as int) =~= all);
    request
}

/// Asks git for the attributes of the paths that it reads.
pub open spec fn attribute_command(attributes: Seq<Seq<u8>>) -> Seq<Seq<u8>> {
    seq!["check-attr".spec_bytes(), "-z".spec_bytes(), "--stdin".spec_bytes()] + attributes
}

/// The arguments that ask git for these attributes.
pub fn attribute_args(attributes: &[Vec<u8>]) -> (args: Vec<Vec<u8>>)
    ensures
        bytes::views(args@) == attribute_command(bytes::views(attributes@)),
{
    let mut args = vec![bytes::word("check-attr"), bytes::word("-z"), bytes::word("--stdin")];
    assert(bytes::views(args@) =~= seq![
        "check-attr".spec_bytes(),
        "-z".spec_bytes(),
        "--stdin".spec_bytes(),
    ]);
    bytes::append_all(&mut args, attributes);
    args
}

/// Whether the path at a position is known to arrive in the working tree as it is in the
/// blob. `reported` says for each position whether the path is converted, where git said
/// anything about it; it is missing where git could not be asked.
pub open spec fn verbatim(reported: Option<Seq<Option<bool>>>, i: int) -> bool {
    match reported {
        Some(reported) => i < reported.len() && reported[i] == Some(false),
        None => false,
    }
}

/// Those of the first so many paths that are known not to be converted.
pub open spec fn unconverted(
    paths: Seq<Intended>,
    reported: Option<Seq<Option<bool>>>,
    count: int,
) -> Seq<Intended>
    decreases count,
{
    if count <= 0 {
        Seq::empty()
    } else if verbatim(reported, count - 1) {
        unconverted(paths, reported, count - 1).push(paths[count - 1])
    } else {
        unconverted(paths, reported, count - 1)
    }
}

/// Removes the paths a checkout would rewrite on its way to the working tree.
///
/// Every remaining path is one where the blob's bytes and the working tree's bytes are the
/// same thing, which is what makes the index stat cache a sufficient answer.
pub fn drop_converted_paths(paths: Vec<Planned>, reported: Option<&[Option<bool>]>) -> (r: Vec<
    Planned,
>)
    ensures
        checkout::intentions(r@) == unconverted(
            checkout::intentions(paths@),
            match reported {
                Some(reported) => Some(reported@),
                None => None,
            },
            paths@.len() as int,
        ),
{
    let ghost all = checkout::intentions(paths@);
    let ghost said = match reported {
        Some(reported) => Some(reported@),
        None => None,
    };
    let mut kept: Vec<Planned> = Vec::new();
    let mut i: usize = 0;
    assert(checkout::intentions(kept@) =~= unconverted(all, said, 0));
    while i < paths.len()
        invariant
            i <= paths.len(),
            all == checkout::intentions(paths@),
            said == match reported {
                Some(reported) => Some(reported@),
                None => None,
            },
            checkout::intentions(kept@) == unconverted(all, said, i as int),
        decreases paths.len() - i,
    {
        let keep = match reported {
            Some(reported) => i < reported.len() && match reported[i] {
                Some(converted) => !converted,
                None => false,
            },
            None => false,
        };
        let ghost prior = checkout::intentions(kept@);
        if keep {
            kept.push(paths[i].clone());
            assert(checkout::intentions(kept@) =~= prior.push(paths@[i as int]@));
        }
        i = i + 1;
    }
    kept
}

/// Exactly the paths that git reported as not converted are left.
pub proof fn only_unconverted_paths_are_left(
    paths: Seq<Intended>,
    reported: Option<Seq<Option<bool>>>,
    count: int,
    x: Intended,
)
    requires
        0 <= count <= paths.len(),
    ensures
        unconverted(paths, reported, count).contains(x) <==> exists|i: int|
            0 <= i < count && verbatim(reported, i) && #[trigger] paths[i] == x,
    decreases count,
{
    if count > 0 {
        let before = unconverted(paths, reported, count - 1);
        let now = unconverted(paths, reported, count);
        only_unconverted_paths_are_left(paths, reported, count - 1, x);
        if before.contains(x) {
            let k = choose|k: int| 0 <= k < before.len() && before[k] == x;
            assert(now[k] == x);
        }
        if now.contains(x) {
            let k = choose|k: int| 0 <= k < now.len() && now[k] == x;
            if k < before.len() {
                assert(before[k] == x);
            } else {
                assert(paths[count - 1] == x);
            }
        }
        if verbatim(reported, count - 1) && paths[count - 1] == x {
            assert(now[before.len() as int] == x);
        }
    }
}

/// Up to a thousand paths are named in the question, in order; more are not, and the question
/// is then about everything.
pub proof fn up_to_a_thousand_paths_are_named(paths: Seq<Seq<u8>>)
    ensures
        changed_command(paths).take(4) == seq![
            "diff-files".spec_bytes(),
            "-z".spec_bytes(),
            "--name-only".spec_bytes(),
            "--".spec_bytes(),
        ],
        paths.len() <= 1000 ==> changed_command(paths).skip(4) == paths,
        paths.len() > 1000 ==> changed_command(paths).len() == 4,
{
    let question = seq![
        "diff-files".spec_bytes(),
        "-z".spec_bytes(),
        "--name-only".spec_bytes(),
        "--".spec_bytes(),
    ];
    assert(changed_command(paths).take(4) =~= question);
    if paths.len() <= 1000 {
        assert(changed_command(paths).skip(4) =~= paths);
    }
}

/// Of the paths that git prints, each ended by a NUL, exactly those count as changed; where
/// git could not be asked, exactly those that were to be asked about do.
pub proof fn what_git_prints_is_changed(
    asked: Seq<Seq<u8>>,
    printed: Seq<Seq<u8>>,
    path: Seq<u8>,
)
    requires
        asked.len() > 0,
        forall|i: int|
            0 <= i < printed.len() ==> (#[trigger] printed[i]).len() > 0 && !printed[i].contains(
                0u8,
            ),
    ensures
        changed(asked, Some(bytes::join_with(printed.push(Seq::empty()), 0)), path)
            <==> printed.contains(path),
        changed(asked, None, path) <==> asked.contains(path),
        !changed(Seq::empty(), None, path),
        !changed(Seq::empty(), Some(path), path),
{
    let pieces = printed.push(Seq::empty());
    assert forall|i: int| 0 <= i < pieces.len() implies !(#[trigger] pieces[i]).contains(0u8) by {
        if i < printed.len() {
            assert(pieces[i] == printed[i]);
        }
    }
    bytes::join_then_split(pieces, 0);
    bytes::lemma_push_contains(printed, Seq::<u8>::empty(), path);
    if printed.contains(path) {
        let i = choose|i: int| 0 <= i < printed.len() && printed[i] == path;
        assert(printed[i].len() > 0);
    }
}

proof fn lemma_inserted_as_many(list: Seq<Intended>, item: Intended)
    ensures
        inserted(list, item).len() == list.len() + 1,
        inserted(list, item).to_multiset() == list.to_multiset().insert(item),
    decreases list.len(),
{
    broadcast use vstd::seq_lib::group_to_multiset_ensures;

    if list.len() == 0 || !bytes::before(item.path, list.last().path) {
        assert(list.push(item).to_multiset() =~= list.to_multiset().insert(item));
    } else {
        let start = list.drop_last();
        lemma_inserted_as_many(start, item);
        assert(list =~= start.push(list.last()));
        assert(inserted(list, item).to_multiset() =~= list.to_multiset().insert(item));
    }
}

proof fn lemma_ordered_as_many(list: Seq<Intended>)
    ensures
        in_path_order(list).len() == list.len(),
        in_path_order(list).to_multiset() == list.to_multiset(),
    decreases list.len(),
{
    broadcast use vstd::seq_lib::group_to_multiset_ensures;

    if list.len() > 0 {
        let start = list.drop_last();
        lemma_ordered_as_many(start);
        lemma_inserted_as_many(in_path_order(start), list.last());
        assert(list =~= start.push(list.last()));
        assert(in_path_order(list).to_multiset() =~= list.to_multiset());
    }
}

/// Settling neither loses nor doubles a path: where nothing changed, all paths are there,
/// each as often as before, and where all racy ones changed, only the others are.
pub proof fn settling_keeps_every_path_once(
    paths: Seq<Intended>,
    racy: Seq<Intended>,
    changed: Set<Seq<u8>>,
)
    ensures
        settled(paths, racy, Set::empty()).to_multiset() == (paths + racy).to_multiset(),
        (forall|i: int| 0 <= i < racy.len() ==> changed.contains((#[trigger] racy[i]).path))
            ==> settled(paths, racy, changed).to_multiset() == paths.to_multiset(),
        settled(paths, racy, changed).len() <= paths.len() + racy.len(),
        settled(paths, racy, changed).len() >= paths.len(),
    decreases racy.len(),
{
    lemma_ordered_as_many(paths + racy);
    lemma_unchanged_all(racy, Set::empty());
    lemma_ordered_as_many(paths + unchanged(racy, changed));
    if racy.len() == 0 {
        lemma_unchanged_none(changed);
        assert(racy =~= Seq::<Intended>::empty());
        assert(paths + unchanged(racy, changed) =~= paths);
    } else {
        let start = racy.drop_last();
        settling_keeps_every_path_once(paths, start, changed);
        lemma_unchanged_step(racy, changed);
        lemma_ordered_as_many(paths + unchanged(start, changed));
        if forall|i: int| 0 <= i < racy.len() ==> changed.contains((#[trigger] racy[i]).path) {
            assert(racy[racy.len() - 1] == racy.last());
            assert forall|i: int| 0 <= i < start.len() implies changed.contains(
                (#[trigger] start[i]).path,
            ) by {
                assert(start[i] == racy[i]);
            }
        }
    }
}

/// The question about attributes holds every path, in order and ended by a NUL.
pub proof fn every_path_is_asked_about(paths: Seq<Intended>)
    requires
        forall|i: int| 0 <= i < paths.len() ==> !(#[trigger] paths[i]).path.contains(0u8),
    ensures
        bytes::split_on(attribute_request(paths), 0) == Seq::new(
            paths.len(),
            |i: int| paths[i].path,
        ).push(Seq::<u8>::empty()),
{
    let names = Seq::new(paths.len(), |i: int| paths[i].path);
    let pieces = names.push(Seq::<u8>::empty());
    lemma_request_joins(paths);
    assert forall|i: int| 0 <= i < pieces.len() implies !(#[trigger] pieces[i]).contains(0u8) by {
        if i < paths.len() {
            assert(pieces[i] == paths[i].path);
        }
    }
    bytes::join_then_split(pieces, 0);
}

proof fn lemma_join_push(pieces: Seq<Seq<u8>>, last: Seq<u8>)
    requires
        pieces.len() > 0,
    ensures
        bytes::join_with(pieces.push(last), 0) == bytes::join_with(pieces, 0) + seq![0u8] + last,
    decreases pieces.len(),
{
    let all = pieces.push(last);
    if pieces.len() == 1 {
        let rest = all.drop_first();
        assert(rest =~= seq![last]);
        assert(bytes::join_with(rest, 0) == last);
        assert(bytes::join_with(all, 0) == all[0] + seq![0u8] + last);
    } else {
        lemma_join_push(pieces.drop_first(), last);
        assert(all.drop_first() =~= pieces.drop_first().push(last));
        assert(bytes::join_with(all, 0) =~= bytes::join_with(pieces, 0) + seq![0u8] + last);
    }
}

proof fn lemma_request_joins(paths: Seq<Intended>)
    ensures
        attribute_request(paths) == bytes::join_with(
            Seq::new(paths.len(), |i: int| paths[i].path).push(Seq::<u8>::empty()),
            0,
        ),
    decreases paths.len(),
{
    let names = Seq::new(paths.len(), |i: int| paths[i].path);
    if paths.len() == 0 {
        assert(names.push(Seq::<u8>::empty())[0] =~= Seq::<u8>::empty());
    } else {
        let start = paths.drop_last();
        let earlier = Seq::new(start.len(), |i: int| start[i].path);
        lemma_request_joins(start);
        assert(names =~= earlier.push(paths.last().path));
        lemma_join_push(names, Seq::empty());
        if earlier.len() == 0 {
            assert(names =~= seq![paths.last().path]);
            assert(attribute_request(start) =~= Seq::<u8>::empty());
            assert(attribute_request(paths) =~= paths.last().path + seq![0u8]);
        } else {
            lemma_join_push(earlier, Seq::empty());
            lemma_join_push(earlier, paths.last().path);
            assert(attribute_request(start) =~= bytes::join_with(earlier, 0) + seq![0u8]);
        }
        assert(attribute_request(paths) =~= bytes::join_with(names, 0) + seq![0u8] + Seq::empty());
    }
}

/// A path is left exactly when git was asked and said of it that it is not converted. Those
/// that are left keep their order, and where git could not be asked none is.
pub proof fn only_what_git_called_unconverted_is_left(
    paths: Seq<Intended>,
    reported: Seq<Option<bool>>,
    x: Intended,
)
    ensures
        unconverted(paths, None, paths.len() as int).len() == 0,
        unconverted(paths, Some(reported), paths.len() as int).contains(x) <==> exists|i: int|
            0 <= i < paths.len() && i < reported.len() && (#[trigger] reported[i]) == Some(false)
                && paths[i] == x,
        reported.len() >= paths.len() && (forall|i: int|
            0 <= i < paths.len() ==> #[trigger] reported[i] == Some(false)) ==> unconverted(
            paths,
            Some(reported),
            paths.len() as int,
        ) == paths,
{
    lemma_none_unconverted(paths, paths.len() as int);
    only_unconverted_paths_are_left(paths, Some(reported), paths.len() as int, x);
    if exists|i: int|
        0 <= i < paths.len() && verbatim(Some(reported), i) && #[trigger] paths[i] == x {
        let i = choose|i: int|
            0 <= i < paths.len() && verbatim(Some(reported), i) && #[trigger] paths[i] == x;
        assert(reported[i] == Some(false));
    }
    if exists|i: int|
        0 <= i < paths.len() && i < reported.len() && (#[trigger] reported[i]) == Some(false)
            && paths[i] == x {
        let i = choose|i: int|
            0 <= i < paths.len() && i < reported.len() && (#[trigger] reported[i]) == Some(false)
                && paths[i] == x;
        assert(verbatim(Some(reported), i) && paths[i] == x);
    }
    if reported.len() >= paths.len() && (forall|i: int|
        0 <= i < paths.len() ==> #[trigger] reported[i] == Some(false)) {
        lemma_all_unconverted(paths, reported, paths.len() as int);
        assert(paths.take(paths.len() as int) =~= paths);
    }
}

proof fn lemma_none_unconverted(paths: Seq<Intended>, count: int)
    requires
        0 <= count <= paths.len(),
    ensures
        unconverted(paths, None, count).len() == 0,
    decreases count,
{
    if count > 0 {
        lemma_none_unconverted(paths, count - 1);
    }
}

proof fn lemma_all_unconverted(paths: Seq<Intended>, reported: Seq<Option<bool>>, count: int)
    requires
        0 <= count <= paths.len() <= reported.len(),
        forall|i: int| 0 <= i < paths.len() ==> #[trigger] reported[i] == Some(false),
    ensures
        unconverted(paths, Some(reported), count) == paths.take(count),
    decreases count,
{
    if count > 0 {
        lemma_all_unconverted(paths, reported, count - 1);
        assert(reported[count - 1] == Some(false));
        assert(paths.take(count) =~= paths.take(count - 1).push(paths[count - 1]));
    } else {
        assert(paths.take(0) =~= Seq::<Intended>::empty());
    }
}

/// Whether a path is left does not depend on the others: what is left of a longer list is
/// what is left of its start, and the next path where it is not converted.
pub proof fn each_path_is_left_on_its_own(
    paths: Seq<Intended>,
    next: Intended,
    reported: Seq<Option<bool>>,
    converted: Option<bool>,
)
    requires
        reported.len() == paths.len(),
    ensures
        unconverted(paths.push(next), Some(reported.push(converted)), paths.len() as int + 1)
            == unconverted(paths, Some(reported), paths.len() as int) + (if converted == Some(
            false,
        ) {
            seq![next]
        } else {
            Seq::empty()
        }),
{
    let longer = paths.push(next);
    let said = reported.push(converted);
    lemma_same_start(paths, next, reported, converted, paths.len() as int);
    assert(said[paths.len() as int] == converted);
    assert(unconverted(longer, Some(said), paths.len() as int + 1) =~= unconverted(
        paths,
        Some(reported),
        paths.len() as int,
    ) + (if converted == Some(false) {
        seq![next]
    } else {
        Seq::empty()
    }));
}

proof fn lemma_same_start(
    paths: Seq<Intended>,
    next: Intended,
    reported: Seq<Option<bool>>,
    converted: Option<bool>,
    count: int,
)
    requires
        reported.len() == paths.len(),
        0 <= count <= paths.len(),
    ensures
        unconverted(paths.push(next), Some(reported.push(converted)), count) == unconverted(
            paths,
            Some(reported),
            count,
        ),
    decreases count,
{
    if count > 0 {
        lemma_same_start(paths, next, reported, converted, count - 1);
        assert(reported.push(converted)[count - 1] == reported[count - 1]);
        assert(paths.push(next)[count - 1] == paths[count - 1]);
    }
}

/// Settled paths are in byte order: none comes before one that stands ahead of it.
pub proof fn settled_paths_are_in_byte_order(
    paths: Seq<Intended>,
    racy: Seq<Intended>,
    changed: Set<Seq<u8>>,
    i: int,
    j: int,
)
    requires
        0 <= i < j < settled(paths, racy, changed).len(),
    ensures
        !bytes::before(
            settled(paths, racy, changed)[j].path,
            settled(paths, racy, changed)[i].path,
        ),
{
    settled_paths_are_unchanged(paths, racy, changed);
}

/// The attributes that convert are asked for by name, of paths that come on standard input
/// and are ended by NULs, as are the answers.
pub proof fn attributes_are_asked_for_by_name(attributes: Seq<Seq<u8>>)
    ensures
        attribute_command(attributes).take(3) == seq![
            "check-attr".spec_bytes(),
            "-z".spec_bytes(),
            "--stdin".spec_bytes(),
        ],
        attribute_command(attributes).skip(3) == attributes,
{
    assert(attribute_command(attributes).take(3) =~= seq![
        "check-attr".spec_bytes(),
        "-z".spec_bytes(),
        "--stdin".spec_bytes(),
    ]);
    assert(attribute_command(attributes).skip(3) =~= attributes);
}

} // verus!
