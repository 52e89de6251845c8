//! Byte strings: the form in which arguments, paths and git's output are handled.

use vstd::prelude::*;
use vstd::slice::slice_subrange;
use vstd::slice::slice_to_vec;
use vstd::string::*;
use vstd::utf8::*;

verus! {

/// The contents of a list of byte strings.
pub open spec fn views(list: Seq<Vec<u8>>) -> Seq<Seq<u8>> {
    Seq::new(list.len(), |i: int| list[i]@)
}

/// The contents of an optional byte string.
pub open spec fn view_of(value: Option<Vec<u8>>) -> Option<Seq<u8>> {
    match value {
        Some(bytes) => Some(bytes@),
        None => None,
    }
}

/// The contents of an optional borrowed byte string.
pub open spec fn slice_of(value: Option<&[u8]>) -> Option<Seq<u8>> {
    match value {
        Some(bytes) => Some(bytes@),
        None => None,
    }
}

/// Where `byte` first occurs in `s`, or the length of `s` if it does not.
pub open spec fn first_index(s: Seq<u8>, byte: u8) -> int
    decreases s.len(),
{
    if s.len() == 0 || s[0] == byte {
        0
    } else {
        1 + first_index(s.drop_first(), byte)
    }
}

/// The pieces of `s` between occurrences of `separator`: one more than there are
/// separators, so an empty piece stands before a leading and after a trailing one.
pub open spec fn split_on(s: Seq<u8>, separator: u8) -> Seq<Seq<u8>>
    decreases s.len(),
{
    let k = first_index(s, separator);
    if 0 <= k < s.len() {
        seq![s.take(k)] + split_on(s.skip(k + 1), separator)
    } else {
        seq![s]
    }
}

/// The pieces put back together with `separator` between them.
pub open spec fn join_with(pieces: Seq<Seq<u8>>, separator: u8) -> Seq<u8>
    decreases pieces.len(),
{
    if pieces.len() == 0 {
        Seq::empty()
    } else if pieces.len() == 1 {
        pieces[0]
    } else {
        pieces[0] + seq![separator] + join_with(pieces.drop_first(), separator)
    }
}

/// How often `byte` occurs in `s`.
pub open spec fn count_of(s: Seq<u8>, byte: u8) -> nat
    decreases s.len(),
{
    if s.len() == 0 {
        0
    } else {
        count_of(s.drop_last(), byte) + if s.last() == byte {
            1nat
        } else {
            0nat
        }
    }
}

/// The order of byte strings: the first differing byte decides, and a proper prefix comes
/// before what it is a prefix of.
pub open spec fn before(a: Seq<u8>, b: Seq<u8>) -> bool
    decreases a.len(),
{
    if b.len() == 0 {
        false
    } else if a.len() == 0 {
        true
    } else {
        a[0] < b[0] || (a[0] == b[0] && before(a.drop_first(), b.drop_first()))
    }
}

/// `first_index` is the first occurrence: the byte is there, and nowhere earlier.
pub proof fn lemma_first_index(s: Seq<u8>, byte: u8)
    ensures
        0 <= first_index(s, byte) <= s.len(),
        first_index(s, byte) < s.len() ==> s[first_index(s, byte)] == byte,
        forall|i: int| 0 <= i < first_index(s, byte) ==> s[i] != byte,
    decreases s.len(),
{
    if s.len() > 0 && s[0] != byte {
        let rest = s.drop_first();
        lemma_first_index(rest, byte);
        assert forall|i: int| 0 <= i < first_index(s, byte) implies s[i] != byte by {
            if i > 0 {
                assert(s[i] == rest[i - 1]);
            }
        }
        if first_index(s, byte) < s.len() {
            assert(s[first_index(s, byte)] == rest[first_index(rest, byte)]);
        }
    }
}

/// The only position with those properties.
pub proof fn lemma_first_index_unique(s: Seq<u8>, byte: u8, k: int)
    requires
        0 <= k <= s.len(),
        k < s.len() ==> s[k] == byte,
        forall|i: int| 0 <= i < k ==> s[i] != byte,
    ensures
        first_index(s, byte) == k,
{
    lemma_first_index(s, byte);
    let f = first_index(s, byte);
    if f < k {
        assert(s[f] != byte);
    }
    if k < f {
        assert(s[k] != byte);
    }
}

/// No byte string comes before itself.
pub proof fn lemma_before_irreflexive(a: Seq<u8>)
    ensures
        !before(a, a),
    decreases a.len(),
{
    if a.len() > 0 {
        lemma_before_irreflexive(a.drop_first());
    }
}

/// The order is transitive.
pub proof fn lemma_before_transitive(a: Seq<u8>, b: Seq<u8>, c: Seq<u8>)
    requires
        before(a, b),
        before(b, c),
    ensures
        before(a, c),
    decreases a.len(),
{
    if a.len() > 0 && b.len() > 0 && c.len() > 0 {
        if a[0] == b[0] && b[0] == c[0] {
            lemma_before_transitive(a.drop_first(), b.drop_first(), c.drop_first());
        }
    }
}

/// Of two different byte strings one comes before the other.
pub proof fn lemma_before_total(a: Seq<u8>, b: Seq<u8>)
    requires
        a != b,
    ensures
        before(a, b) || before(b, a),
    decreases a.len(),
{
    if a.len() == 0 || b.len() == 0 {
        if a.len() == b.len() {
            assert(a =~= b);
        }
    } else if a[0] == b[0] {
        if a.drop_first() == b.drop_first() {
            assert(a =~= seq![a[0]] + a.drop_first());
            assert(b =~= seq![b[0]] + b.drop_first());
        } else {
            lemma_before_total(a.drop_first(), b.drop_first());
        }
    }
}

/// Splitting loses nothing: the pieces, put together again, give the whole.
pub proof fn split_then_join(s: Seq<u8>, separator: u8)
    ensures
        join_with(split_on(s, separator), separator) == s,
        split_on(s, separator).len() > 0,
    decreases s.len(),
{
    lemma_first_index(s, separator);
    let k = first_index(s, separator);
    if k < s.len() {
        let rest = s.skip(k + 1);
        split_then_join(rest, separator);
        let pieces = split_on(s, separator);
        assert(pieces.drop_first() =~= split_on(rest, separator));
        assert(s =~= s.take(k) + seq![separator] + rest);
    }
}

/// Pieces that do not hold the separator survive being put together and split again.
pub proof fn join_then_split(pieces: Seq<Seq<u8>>, separator: u8)
    requires
        pieces.len() > 0,
        forall|i: int| 0 <= i < pieces.len() ==> !(#[trigger] pieces[i]).contains(separator),
    ensures
        split_on(join_with(pieces, separator), separator) == pieces,
    decreases pieces.len(),
{
    let s = join_with(pieces, separator);
    let first = pieces[0];
    assert forall|i: int| 0 <= i < first.len() implies s[i] != separator by {
        assert(s[i] == first[i]);
        assert(first.contains(first[i]));
    }
    if pieces.len() == 1 {
        lemma_first_index_unique(s, separator, s.len() as int);
        assert(pieces =~= seq![s]);
    } else {
        let rest = pieces.drop_first();
        assert forall|i: int| 0 <= i < rest.len() implies !(#[trigger] rest[i]).contains(
            separator,
        ) by {
            assert(rest[i] == pieces[i + 1]);
        }
        join_then_split(rest, separator);
        assert(s[first.len() as int] == separator);
        lemma_first_index_unique(s, separator, first.len() as int);
        assert(s.take(first.len() as int) =~= first);
        assert(s.skip(first.len() as int + 1) =~= join_with(rest, separator));
        assert(pieces =~= seq![first] + rest);
    }
}

/// No piece of a split holds the separator.
pub proof fn lemma_split_pieces(s: Seq<u8>, separator: u8)
    ensures
        forall|i: int|
            #![trigger split_on(s, separator)[i]]
            0 <= i < split_on(s, separator).len() ==> !split_on(s, separator)[i].contains(
                separator,
            ),
    decreases s.len(),
{
    lemma_first_index(s, separator);
    let k = first_index(s, separator);
    if k < s.len() {
        let rest = s.skip(k + 1);
        lemma_split_pieces(rest, separator);
        assert forall|i: int|
            #![trigger split_on(s, separator)[i]]
            0 <= i < split_on(s, separator).len() implies !split_on(s, separator)[i].contains(
            separator,
        ) by {
            if i == 0 {
                assert(split_on(s, separator)[0] == s.take(k));
            } else {
                assert(split_on(s, separator)[i] == split_on(rest, separator)[i - 1]);
            }
        }
    } else {
        assert(split_on(s, separator) == seq![s]);
    }
}

/// A list grows by one when a byte string is pushed.
pub proof fn lemma_views_push(list: Seq<Vec<u8>>, item: Vec<u8>)
    ensures
        views(list.push(item)) == views(list).push(item@),
{
    assert(views(list.push(item)) =~= views(list).push(item@));
}

/// What pushing an item adds to a sequence's members.
pub proof fn lemma_push_contains<T>(s: Seq<T>, item: T, x: T)
    ensures
        s.push(item).contains(x) <==> s.contains(x) || x == item,
{
    let longer = s.push(item);
    if s.contains(x) {
        let i = choose|i: int| 0 <= i < s.len() && s[i] == x;
        assert(longer[i] == x);
    }
    if x == item {
        assert(longer[s.len() as int] == x);
    }
}

/// Whether two byte strings are equal.
pub fn same_bytes(a: &[u8], b: &[u8]) -> (r: bool)
    ensures
        r == (a@ == b@),
{
    if a.len() != b.len() {
        return false;
    }
    let mut i: usize = 0;
    while i < a.len()
        invariant
            i <= a.len(),
            a@.len() == b@.len(),
            forall|j: int| 0 <= j < i ==> a@[j] == b@[j],
        decreases a.len() - i,
    {
        if a[i] != b[i] {
            return false;
        }
        i = i + 1;
    }
    assert(a@ =~= b@);
    true
}

/// Whether a byte string is exactly this text.
pub fn is_word(bytes: &[u8], text: &str) -> (r: bool)
    ensures
        r == (bytes@ == text.spec_bytes()),
{
    same_bytes(bytes, text.as_bytes())
}

/// Whether `prefix` is where `bytes` starts.
pub fn begins_with(bytes: &[u8], prefix: &[u8]) -> (r: bool)
    ensures
        r == prefix@.is_prefix_of(bytes@),
{
    if bytes.len() < prefix.len() {
        return false;
    }
    let start = slice_subrange(bytes, 0, prefix.len());
    same_bytes(prefix, start)
}

/// A copy of a byte string.
pub fn copy(bytes: &[u8]) -> (r: Vec<u8>)
    ensures
        r@ == bytes@,
{
    slice_to_vec(bytes)
}

/// The bytes of a text.
pub fn word(text: &str) -> (r: Vec<u8>)
    ensures
        r@ == text.spec_bytes(),
{
    slice_to_vec(text.as_bytes())
}

/// The bytes as text, when they are text: valid UTF-8.
///
/// Calls `std::str::from_utf8`, of which the contract claims that it succeeds on valid UTF-8
/// alone and then returns the characters that the bytes encode.
#[verifier::external_body]
pub(crate) fn as_text(bytes: &[u8]) -> (r: Option<&str>)
    ensures
        r is Some <==> valid_utf8(bytes@),
        r matches Some(text) ==> text@ == decode_utf8(bytes@),
{
    std::str::from_utf8(bytes).ok()
}

/// A copy of a list of byte strings.
pub fn copy_all(list: &[Vec<u8>]) -> (r: Vec<Vec<u8>>)
    ensures
        views(r@) == views(list@),
{
    let mut copied: Vec<Vec<u8>> = Vec::new();
    append_all(&mut copied, list);
    assert(views(copied@) =~= views(list@));
    copied
}

/// Appends copies of `more` to `list`.
pub fn append_all(list: &mut Vec<Vec<u8>>, more: &[Vec<u8>])
    ensures
        views(final(list)@) == views(old(list)@) + views(more@),
{
    let mut i: usize = 0;
    while i < more.len()
        invariant
            i <= more.len(),
            views(list@) == views(old(list)@) + views(more@).take(i as int),
        decreases more.len() - i,
    {
        let ghost prior = list@;
        list.push(slice_to_vec(more[i].as_slice()));
        proof {
            lemma_views_push(prior, list@.last());
            assert(views(more@).take(i + 1) =~= views(more@).take(i as int).push(more@[i as int]@));
        }
        i = i + 1;
    }
    assert(views(more@).take(i as int) =~= views(more@));
}

/// Whether a list holds this byte string.
pub fn holds(list: &[Vec<u8>], item: &[u8]) -> (r: bool)
    ensures
        r == views(list@).contains(item@),
{
    let mut i: usize = 0;
    while i < list.len()
        invariant
            i <= list.len(),
            forall|j: int| 0 <= j < i ==> views(list@)[j] != item@,
        decreases list.len() - i,
    {
        if same_bytes(list[i].as_slice(), item) {
            assert(views(list@)[i as int] == item@);
            return true;
        }
        i = i + 1;
    }
    false
}

/// Whether two lists hold the same byte strings in the same order.
pub fn same_list(a: &[Vec<u8>], b: &[Vec<u8>]) -> (r: bool)
    ensures
        r == (views(a@) == views(b@)),
{
    if a.len() != b.len() {
        assert(views(a@).len() != views(b@).len());
        return false;
    }
    let mut i: usize = 0;
    while i < a.len()
        invariant
            i <= a.len(),
            a@.len() == b@.len(),
            forall|j: int| 0 <= j < i ==> views(a@)[j] == views(b@)[j],
        decreases a.len() - i,
    {
        if !same_bytes(a[i].as_slice(), b[i].as_slice()) {
            assert(views(a@)[i as int] != views(b@)[i as int]);
            return false;
        }
        i = i + 1;
    }
    assert(views(a@) =~= views(b@));
    true
}

/// Where `byte` first occurs in `s`, or the length of `s` if it does not.
pub fn position_of(s: &[u8], byte: u8) -> (k: usize)
    ensures
        k == first_index(s@, byte),
{
    let mut i: usize = 0;
    while i < s.len()
        invariant
            i <= s.len(),
            forall|j: int| 0 <= j < i ==> s@[j] != byte,
        decreases s.len() - i,
    {
        if s[i] == byte {
            proof {
                lemma_first_index_unique(s@, byte, i as int);
            }
            return i;
        }
        i = i + 1;
    }
    proof {
        lemma_first_index_unique(s@, byte, i as int);
    }
    i
}

/// The pieces of `s` between occurrences of `separator`.
pub fn split(s: &[u8], separator: u8) -> (r: Vec<Vec<u8>>)
    ensures
        views(r@) == split_on(s@, separator),
{
    let mut pieces: Vec<Vec<u8>> = Vec::new();
    let mut rest: &[u8] = s;
    loop
        invariant
            split_on(s@, separator) == views(pieces@) + split_on(rest@, separator),
        decreases rest.len(),
    {
        let k = position_of(rest, separator);
        let ghost prior = pieces@;
        proof {
            lemma_first_index(rest@, separator);
        }
        let piece = slice_to_vec(slice_subrange(rest, 0, k));
        proof {
            lemma_views_push(prior, piece);
        }
        pieces.push(piece);
        if k == rest.len() {
            assert(rest@.subrange(0, k as int) =~= rest@);
            assert(views(pieces@) =~= split_on(s@, separator));
            return pieces;
        }
        let ghost whole = rest@;
        rest = slice_subrange(rest, k + 1, rest.len());
        assert(rest@ =~= whole.skip(k + 1));
        assert(whole.subrange(0, k as int) =~= whole.take(k as int));
        assert(views(pieces@) + split_on(rest@, separator) =~= views(prior) + split_on(
            whole,
            separator,
        ));
    }
}

/// How often `byte` occurs in `s`.
pub fn count(s: &[u8], byte: u8) -> (n: usize)
    ensures
        n == count_of(s@, byte),
        n <= s.len(),
{
    let mut n: usize = 0;
    let mut i: usize = 0;
    while i < s.len()
        invariant
            i <= s.len(),
            n <= i,
            n == count_of(s@.take(i as int), byte),
        decreases s.len() - i,
    {
        assert(s@.take(i + 1).drop_last() =~= s@.take(i as int));
        if s[i] == byte {
            n = n + 1;
        }
        i = i + 1;
    }
    assert(s@.take(i as int) =~= s@);
    n
}

/// Whether `a` comes before `b`.
pub fn comes_before(a: &[u8], b: &[u8]) -> (r: bool)
    ensures
        r == before(a@, b@),
{
    let mut i: usize = 0;
    assert(a@.skip(0) =~= a@);
    assert(b@.skip(0) =~= b@);
    while i < a.len() && i < b.len()
        invariant
            i <= a.len(),
            i <= b.len(),
            before(a@, b@) == before(a@.skip(i as int), b@.skip(i as int)),
        decreases a.len() - i,
    {
        assert(a@.skip(i as int).drop_first() =~= a@.skip(i + 1));
        assert(b@.skip(i as int).drop_first() =~= b@.skip(i + 1));
        if a[i] < b[i] {
            return true;
        }
        if a[i] > b[i] {
            return false;
        }
        i = i + 1;
    }
    i < b.len()
}

/// Byte strings are ordered by the first byte in which they differ, whatever stands before
/// and after it.
pub proof fn the_first_difference_decides(
    common: Seq<u8>,
    x: u8,
    more: Seq<u8>,
    y: u8,
    other: Seq<u8>,
)
    requires
        x != y,
    ensures
        before(common + seq![x] + more, common + seq![y] + other) <==> x < y,
    decreases common.len(),
{
    let a = common + seq![x] + more;
    let b = common + seq![y] + other;
    if common.len() > 0 {
        let rest = common.drop_first();
        assert(a.drop_first() =~= rest + seq![x] + more);
        assert(b.drop_first() =~= rest + seq![y] + other);
        the_first_difference_decides(rest, x, more, y, other);
    }
}

/// Of two byte strings one of which continues the other, the shorter comes first.
pub proof fn a_prefix_comes_first(a: Seq<u8>, more: Seq<u8>)
    ensures
        before(a, a + more) <==> more.len() > 0,
        !before(a + more, a),
    decreases a.len(),
{
    let b = a + more;
    if a.len() > 0 {
        assert(b.drop_first() =~= a.drop_first() + more);
        a_prefix_comes_first(a.drop_first(), more);
    }
}

/// Every occurrence counts, wherever it stands.
pub proof fn every_occurrence_counts(a: Seq<u8>, b: Seq<u8>, byte: u8)
    ensures
        count_of(a + b, byte) == count_of(a, byte) + count_of(b, byte),
        count_of(seq![byte], byte) == 1,
        count_of(a, byte) == 0 <==> !a.contains(byte),
        count_of(a, byte) <= a.len(),
    decreases a.len() + b.len(),
{
    assert(seq![byte].drop_last() =~= Seq::<u8>::empty());
    assert(count_of(seq![byte].drop_last(), byte) == 0);
    if b.len() > 0 {
        every_occurrence_counts(a, b.drop_last(), byte);
        assert((a + b).drop_last() =~= a + b.drop_last());
    } else {
        assert(a + b =~= a);
        if a.len() > 0 {
            every_occurrence_counts(a.drop_last(), b, byte);
            assert(a =~= a.drop_last().push(a.last()));
            lemma_push_contains(a.drop_last(), a.last(), byte);
        }
    }
}

/// Lists of byte strings are taken item by item.
pub proof fn contents_are_taken_item_by_item(list: Seq<Vec<u8>>, i: int)
    requires
        0 <= i < list.len(),
    ensures
        views(list).len() == list.len(),
        views(list)[i] == list[i]@,
        view_of(Some(list[i])) == Some(list[i]@),
        view_of(None) is None,
        slice_of(None) is None,
{
}

/// Joining puts one separator between two neighbours and none at the ends.
pub proof fn joining_puts_one_separator_between(
    first: Seq<u8>,
    rest: Seq<Seq<u8>>,
    separator: u8,
)
    requires
        rest.len() > 0,
    ensures
        join_with(seq![first], separator) == first,
        join_with(seq![first] + rest, separator) == first + seq![separator] + join_with(
            rest,
            separator,
        ),
{
    assert((seq![first] + rest).drop_first() =~= rest);
}

} // verus!
