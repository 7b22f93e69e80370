//! Text as sequences of characters: trimming, splitting and searching.
//!
//! The executable functions work on character slices. Each one computes the
//! specification function of the same module that its contract names.

use vstd::prelude::*;
use vstd::slice::slice_subrange;

verus! {

broadcast use vstd::string::group_string_axioms;

/// `String::push` appends one character.
pub assume_specification[ String::push ](s: &mut String, c: char)
    ensures
        final(s)@ == old(s)@.push(c),
;

// ---------------------------------------------------------------------------
// Specifications
// ---------------------------------------------------------------------------

/// The characters with Unicode's `White_Space` property.
pub open spec fn is_white(c: char) -> bool {
    ||| '\u{9}' <= c <= '\u{d}'
    ||| c == '\u{20}'
    ||| c == '\u{85}'
    ||| c == '\u{a0}'
    ||| c == '\u{1680}'
    ||| '\u{2000}' <= c <= '\u{200a}'
    ||| c == '\u{2028}'
    ||| c == '\u{2029}'
    ||| c == '\u{202f}'
    ||| c == '\u{205f}'
    ||| c == '\u{3000}'
}

/// `s` without its leading white space.
pub open spec fn trim_start(s: Seq<char>) -> Seq<char>
    decreases s.len(),
{
    if s.len() > 0 && is_white(s[0]) {
        trim_start(s.skip(1))
    } else {
        s
    }
}

/// `s` without its trailing white space.
pub open spec fn trim_end(s: Seq<char>) -> Seq<char>
    decreases s.len(),
{
    if s.len() > 0 && is_white(s.last()) {
        trim_end(s.drop_last())
    } else {
        s
    }
}

/// `s` without the white space at either end.
pub open spec fn trim(s: Seq<char>) -> Seq<char> {
    trim_end(trim_start(s))
}

/// `s` without the copies of `c` that it starts with.
pub open spec fn strip_start(s: Seq<char>, c: char) -> Seq<char>
    decreases s.len(),
{
    if s.len() > 0 && s[0] == c {
        strip_start(s.skip(1), c)
    } else {
        s
    }
}

/// `s` without the copies of `c` that it ends with.
pub open spec fn strip_end(s: Seq<char>, c: char) -> Seq<char>
    decreases s.len(),
{
    if s.len() > 0 && s.last() == c {
        strip_end(s.drop_last(), c)
    } else {
        s
    }
}

/// `s` without the copies of `c` at either end.
pub open spec fn strip_both(s: Seq<char>, c: char) -> Seq<char> {
    strip_end(strip_start(s, c), c)
}

/// The index of the first `c` in `s`, or the length of `s` without one.
pub open spec fn find(s: Seq<char>, c: char) -> int
    decreases s.len(),
{
    if s.len() == 0 || s[0] == c {
        0
    } else {
        1 + find(s.skip(1), c)
    }
}

/// The index of the first white space in `s`, or the length of `s` without any.
pub open spec fn find_white(s: Seq<char>) -> int
    decreases s.len(),
{
    if s.len() == 0 || is_white(s[0]) {
        0
    } else {
        1 + find_white(s.skip(1))
    }
}

/// The part of `s` before its first `c`, the whole of `s` without one.
pub open spec fn before(s: Seq<char>, c: char) -> Seq<char> {
    s.take(find(s, c))
}

/// What stands before and after the first `c` of `s`.
pub open spec fn split_once(s: Seq<char>, c: char) -> Option<(Seq<char>, Seq<char>)> {
    let k = find(s, c);
    if k < s.len() {
        Some((s.take(k), s.skip(k + 1)))
    } else {
        None
    }
}

/// The fields of `s` between the separators `c`: one more than there are separators.
pub open spec fn split(s: Seq<char>, c: char) -> Seq<Seq<char>>
    decreases s.len(),
    via split_decreases
{
    let k = find(s, c);
    if k < s.len() {
        seq![s.take(k)] + split(s.skip(k + 1), c)
    } else {
        seq![s]
    }
}

#[via_fn]
proof fn split_decreases(s: Seq<char>, c: char) {
    lemma_find(s, c);
}

/// `s` without one carriage return at its end.
pub open spec fn strip_cr(s: Seq<char>) -> Seq<char> {
    if s.len() > 0 && s.last() == '\r' {
        s.drop_last()
    } else {
        s
    }
}

/// The lines of `s`, each ended by `\n` or `\r\n`; the last needs no ending.
pub open spec fn lines(s: Seq<char>) -> Seq<Seq<char>>
    decreases s.len(),
    via lines_decreases
{
    let k = find(s, '\n');
    if s.len() == 0 {
        Seq::empty()
    } else if k < s.len() {
        seq![strip_cr(s.take(k))] + lines(s.skip(k + 1))
    } else {
        seq![s]
    }
}

#[via_fn]
proof fn lines_decreases(s: Seq<char>) {
    lemma_find(s, '\n');
}

/// The words of `s`: its longest runs without white space, in order.
pub open spec fn words(s: Seq<char>) -> Seq<Seq<char>>
    decreases s.len(),
    via words_decreases
{
    let t = trim_start(s);
    let k = find_white(t);
    if t.len() == 0 {
        Seq::empty()
    } else {
        seq![t.take(k)] + words(t.skip(k))
    }
}

#[via_fn]
proof fn words_decreases(s: Seq<char>) {
    lemma_trim_start(s);
    lemma_find_white(trim_start(s));
}

/// Whether `needle` occurs in `s`.
pub open spec fn has_text(s: Seq<char>, needle: Seq<char>) -> bool {
    exists|k: int| #[trigger] text_at(s, needle, k)
}

/// Whether `needle` occurs in `s` at index `k`.
pub open spec fn text_at(s: Seq<char>, needle: Seq<char>, k: int) -> bool {
    0 <= k <= s.len() - needle.len() && s.subrange(k, k + needle.len()) == needle
}

/// `c` with an ASCII capital letter replaced by the small one.
pub open spec fn lower(c: char) -> char {
    if 'A' <= c <= 'Z' {
        ((c as u32 + 32) as u32) as char
    } else {
        c
    }
}

/// Whether `a` and `b` are equal up to the case of ASCII letters.
pub open spec fn same_ignoring_case(a: Seq<char>, b: Seq<char>) -> bool {
    a.len() == b.len() && forall|i: int| 0 <= i < a.len() ==> lower(a[i]) == lower(b[i])
}

/// The contents of a vector of strings.
pub open spec fn texts(v: Seq<String>) -> Seq<Seq<char>> {
    Seq::new(v.len(), |i: int| v[i]@)
}

/// An optional string, taken by its characters.
pub open spec fn text_view(r: Option<String>) -> Option<Seq<char>> {
    match r {
        Some(s) => Some(s@),
        None => None,
    }
}

/// The characters of an optional string.
pub open spec fn optional_text(s: Option<&str>) -> Option<Seq<char>> {
    match s {
        Some(t) => Some(t@),
        None => None,
    }
}

/// The items of `parts` with `sep` between them.
pub open spec fn join(parts: Seq<Seq<char>>, sep: Seq<char>) -> Seq<char>
    decreases parts.len(),
{
    if parts.len() == 0 {
        Seq::empty()
    } else if parts.len() == 1 {
        parts[0]
    } else {
        join(parts.drop_last(), sep) + sep + parts.last()
    }
}

/// The items of `parts`, each followed by a line feed.
pub open spec fn unlines(parts: Seq<Seq<char>>) -> Seq<char>
    decreases parts.len(),
{
    if parts.len() == 0 {
        Seq::empty()
    } else {
        unlines(parts.drop_last()) + parts.last() + seq!['\n']
    }
}

// ---------------------------------------------------------------------------
// Facts
// ---------------------------------------------------------------------------

/// `trim_start` never lengthens, and leaves no leading white space.
pub proof fn lemma_trim_start(s: Seq<char>)
    ensures
        trim_start(s).len() <= s.len(),
        trim_start(s).len() > 0 ==> !is_white(trim_start(s)[0]),
    decreases s.len(),
{
    if s.len() > 0 && is_white(s[0]) {
        lemma_trim_start(s.skip(1));
    }
}

/// `find` gives the first index that holds the character.
pub proof fn lemma_find(s: Seq<char>, c: char)
    ensures
        0 <= find(s, c) <= s.len(),
        forall|i: int| 0 <= i < find(s, c) ==> s[i] != c,
        find(s, c) < s.len() ==> s[find(s, c)] == c,
    decreases s.len(),
{
    if s.len() > 0 && s[0] != c {
        let t = s.skip(1);
        lemma_find(t, c);
        assert forall|i: int| 0 <= i < find(s, c) implies s[i] != c by {
            if i > 0 {
                assert(s[i] == t[i - 1]);
            }
        }
        if find(s, c) < s.len() {
            assert(s[find(s, c)] == t[find(t, c)]);
        }
    }
}

/// The first index that holds the character is what `find` gives.
pub proof fn lemma_find_is(s: Seq<char>, c: char, k: int)
    requires
        0 <= k <= s.len(),
        forall|i: int| 0 <= i < k ==> s[i] != c,
        k < s.len() ==> s[k] == c,
    ensures
        find(s, c) == k,
{
    lemma_find(s, c);
    if find(s, c) < k {
        assert(s[find(s, c)] != c);
    }
}

/// `find_white` gives the first index that holds white space.
pub proof fn lemma_find_white(s: Seq<char>)
    ensures
        0 <= find_white(s) <= s.len(),
        forall|i: int| 0 <= i < find_white(s) ==> !is_white(s[i]),
        find_white(s) < s.len() ==> is_white(s[find_white(s)]),
        s.len() > 0 && !is_white(s[0]) ==> find_white(s) > 0,
    decreases s.len(),
{
    if s.len() > 0 && !is_white(s[0]) {
        let t = s.skip(1);
        lemma_find_white(t);
        assert forall|i: int| 0 <= i < find_white(s) implies !is_white(s[i]) by {
            if i > 0 {
                assert(s[i] == t[i - 1]);
            }
        }
        if find_white(s) < s.len() {
            assert(s[find_white(s)] == t[find_white(t)]);
        }
    }
}

/// The first index that holds white space is what `find_white` gives.
pub proof fn lemma_find_white_is(s: Seq<char>, k: int)
    requires
        0 <= k <= s.len(),
        forall|i: int| 0 <= i < k ==> !is_white(s[i]),
        k < s.len() ==> is_white(s[k]),
    ensures
        find_white(s) == k,
{
    lemma_find_white(s);
    if find_white(s) < k {
        assert(!is_white(s[find_white(s)]));
    }
}

/// There is always at least one field.
pub proof fn lemma_split_nonempty(s: Seq<char>, c: char)
    ensures
        split(s, c).len() > 0,
{
    lemma_find(s, c);
}

/// Text without the separator is a single field.
pub proof fn lemma_split_single(a: Seq<char>, c: char)
    requires
        !a.contains(c),
    ensures
        split(a, c) == seq![a],
        split_once(a, c) is None,
        before(a, c) == a,
{
    lemma_find_is(a, c, a.len() as int);
    assert(a.take(a.len() as int) =~= a);
}

/// Text without the separator, then the separator, is the first field.
pub proof fn lemma_split_first(a: Seq<char>, c: char, b: Seq<char>)
    requires
        !a.contains(c),
    ensures
        split(a + seq![c] + b, c) == seq![a] + split(b, c),
        split_once(a + seq![c] + b, c) == Some((a, b)),
        before(a + seq![c] + b, c) == a,
{
    let s = a + seq![c] + b;
    assert forall|i: int| 0 <= i < a.len() implies s[i] != c by {
        assert(s[i] == a[i]);
    }
    lemma_find_is(s, c, a.len() as int);
    assert(s.take(a.len() as int) =~= a);
    assert(s.skip(a.len() as int + 1) =~= b);
}

/// Joining starts with the first item.
pub proof fn lemma_join_first(parts: Seq<Seq<char>>, sep: Seq<char>)
    requires
        parts.len() >= 2,
    ensures
        join(parts, sep) == parts[0] + sep + join(parts.skip(1), sep),
    decreases parts.len(),
{
    let front = parts.drop_last();
    if parts.len() == 2 {
        assert(front.len() == 1 && parts.skip(1).len() == 1);
        assert(join(front, sep) == parts[0]);
    } else {
        lemma_join_first(front, sep);
        assert(front.skip(1) =~= parts.skip(1).drop_last());
        assert(parts.skip(1).last() == parts.last());
        assert(join(parts, sep) =~= parts[0] + sep + (join(front.skip(1), sep) + sep + parts.last()));
    }
}

/// Splitting undoes joining, for items without the separator.
pub proof fn lemma_split_of_join(parts: Seq<Seq<char>>, c: char)
    requires
        parts.len() > 0,
        forall|i: int| 0 <= i < parts.len() ==> !(#[trigger] parts[i]).contains(c),
    ensures
        split(join(parts, seq![c]), c) == parts,
    decreases parts.len(),
{
    assert(!parts[0].contains(c));
    if parts.len() == 1 {
        lemma_split_single(parts[0], c);
        assert(seq![parts[0]] =~= parts);
    } else {
        lemma_join_first(parts, seq![c]);
        lemma_split_of_join(parts.skip(1), c);
        lemma_split_first(parts[0], c, join(parts.skip(1), seq![c]));
        assert(seq![parts[0]] + parts.skip(1) =~= parts);
    }
}

/// A character other than the separator is found in one of the fields.
pub proof fn lemma_split_covers(s: Seq<char>, c: char, x: char)
    requires
        s.contains(x),
        x != c,
    ensures
        exists|i: int| 0 <= i < split(s, c).len() && (#[trigger] split(s, c)[i]).contains(x),
    decreases s.len(),
{
    lemma_find(s, c);
    let k = find(s, c);
    let p = choose|p: int| 0 <= p < s.len() && s[p] == x;
    let f = split(s, c);
    if k == s.len() {
        assert(f[0].contains(x));
    } else if p < k {
        assert(f[0] == s.take(k) && s.take(k)[p] == x);
        assert(f[0].contains(x));
    } else {
        let rest = s.skip(k + 1);
        assert(rest[p - k - 1] == x);
        lemma_split_covers(rest, c, x);
        let j = choose|j: int| 0 <= j < split(rest, c).len() && (#[trigger] split(rest, c)[j]).contains(x);
        assert(f[j + 1] == split(rest, c)[j]);
        assert(f[j + 1].contains(x));
    }
}

/// Text without white space at its ends is its own trimming.
pub proof fn lemma_trim_is_identity(s: Seq<char>)
    requires
        s.len() > 0 ==> !is_white(s[0]) && !is_white(s.last()),
    ensures
        trim(s) == s,
{
}

/// The text starts with the first item and a line feed.
pub proof fn lemma_unlines_first(parts: Seq<Seq<char>>)
    requires
        parts.len() > 0,
    ensures
        unlines(parts) == parts[0] + seq!['\n'] + unlines(parts.skip(1)),
    decreases parts.len(),
{
    let front = parts.drop_last();
    if parts.len() == 1 {
        assert(unlines(front) =~= Seq::empty());
        assert(unlines(parts.skip(1)) =~= Seq::empty());
        assert(unlines(parts) =~= parts[0] + seq!['\n'] + unlines(parts.skip(1)));
    } else {
        lemma_unlines_first(front);
        assert(front.skip(1) =~= parts.skip(1).drop_last());
        assert(parts.skip(1).last() == parts.last());
        assert(unlines(parts) =~= parts[0] + seq!['\n'] + (unlines(front.skip(1)) + parts.last()
            + seq!['\n']));
    }
}

/// The items are the lines of the text, if none holds the end of a line.
pub proof fn lemma_lines_of_unlines(parts: Seq<Seq<char>>)
    requires
        forall|i: int|
            0 <= i < parts.len() ==> !(#[trigger] parts[i]).contains('\n') && strip_cr(parts[i])
                == parts[i],
    ensures
        lines(unlines(parts)) == parts,
    decreases parts.len(),
{
    if parts.len() == 0 {
        assert(parts =~= Seq::empty());
    } else {
        let rest = parts.skip(1);
        lemma_unlines_first(parts);
        assert forall|i: int| 0 <= i < rest.len() implies !(#[trigger] rest[i]).contains('\n')
            && strip_cr(rest[i]) == rest[i] by {
            assert(rest[i] == parts[i + 1]);
        }
        lemma_lines_of_unlines(rest);
        lemma_split_first(parts[0], '\n', unlines(rest));
        let s = unlines(parts);
        assert(!parts[0].contains('\n') && strip_cr(parts[0]) == parts[0]);
        lemma_find(s, '\n');
        assert(split_once(s, '\n') == Some((parts[0], unlines(rest))));
        assert(lines(s) == seq![parts[0]] + lines(unlines(rest)));
        assert(seq![parts[0]] + rest =~= parts);
    }
}

/// Where item `i` starts in the text that lists the items.
pub open spec fn offset(parts: Seq<Seq<char>>, i: int) -> int {
    unlines(parts.take(i)).len() as int
}

/// The text of two lists is the text of one and then that of the other.
pub proof fn lemma_unlines_concat(a: Seq<Seq<char>>, b: Seq<Seq<char>>)
    ensures
        unlines(a + b) == unlines(a) + unlines(b),
    decreases b.len(),
{
    if b.len() == 0 {
        assert(a + b =~= a);
        assert(unlines(b) =~= Seq::empty());
        assert(unlines(a) + unlines(b) =~= unlines(a));
    } else {
        let front = b.drop_last();
        lemma_unlines_concat(a, front);
        assert((a + b).drop_last() =~= a + front);
        assert((a + b).last() == b.last());
        assert(unlines(a + b) =~= unlines(a) + (unlines(front) + b.last() + seq!['\n']));
    }
}

/// The text of a single item.
pub proof fn lemma_unlines_single(item: Seq<char>)
    ensures
        unlines(seq![item]) == item + seq!['\n'],
{
    reveal_with_fuel(unlines, 2);
    assert(unlines(seq![item]) =~= item + seq!['\n']);
}

/// Each item stands in the text, behind those before it.
pub proof fn lemma_unlines_at(parts: Seq<Seq<char>>, i: int)
    requires
        0 <= i < parts.len(),
    ensures
        text_at(unlines(parts), parts[i], offset(parts, i)),
        offset(parts, i + 1) == offset(parts, i) + parts[i].len() + 1,
        offset(parts, i + 1) <= unlines(parts).len(),
{
    let a = parts.take(i);
    let m = seq![parts[i]];
    let b = parts.skip(i + 1);
    assert(parts =~= a + m + b);
    assert(parts.take(i + 1) =~= a + m);
    lemma_unlines_concat(a + m, b);
    lemma_unlines_concat(a, m);
    lemma_unlines_single(parts[i]);
    let s = unlines(parts);
    let k = offset(parts, i);
    assert(s =~= unlines(a) + parts[i] + seq!['\n'] + unlines(b));
    assert(s.subrange(k, k + parts[i].len()) =~= parts[i]);
}

/// A later item stands further behind.
pub proof fn lemma_offsets_grow(parts: Seq<Seq<char>>, i: int, j: int)
    requires
        0 <= i < j < parts.len(),
    ensures
        offset(parts, i) + parts[i].len() < offset(parts, j),
    decreases j - i,
{
    lemma_unlines_at(parts, i);
    if i + 1 < j {
        lemma_offsets_grow(parts, i + 1, j);
    }
}

/// What stands between two texts occurs in the whole.
pub proof fn lemma_text_between(a: Seq<char>, m: Seq<char>, b: Seq<char>)
    ensures
        text_at(a + m + b, m, a.len() as int),
        has_text(a + m + b, m),
{
    let s = a + m + b;
    let k = a.len() as int;
    assert(s.subrange(k, k + m.len()) =~= m);
    assert(text_at(s, m, k));
}

/// What occurs in a part occurs in the whole.
pub proof fn lemma_text_within(s: Seq<char>, t: Seq<char>, u: Seq<char>)
    requires
        has_text(s, t),
        has_text(t, u),
    ensures
        has_text(s, u),
{
    let i = choose|i: int| #[trigger] text_at(s, t, i);
    let j = choose|j: int| #[trigger] text_at(t, u, j);
    assert(s.subrange(i + j, i + j + u.len()) =~= t.subrange(j, j + u.len()));
    assert(text_at(s, u, i + j));
}

/// Each item occurs in the text that joins the items.
pub proof fn lemma_join_has(parts: Seq<Seq<char>>, sep: Seq<char>, i: int)
    requires
        0 <= i < parts.len(),
    ensures
        has_text(join(parts, sep), parts[i]),
    decreases parts.len(),
{
    let none = Seq::<char>::empty();
    if parts.len() == 1 {
        lemma_text_between(none, parts[0], none);
        assert(none + parts[0] + none =~= parts[0]);
    } else if i == parts.len() - 1 {
        let front = join(parts.drop_last(), sep) + sep;
        lemma_text_between(front, parts[i], none);
        assert(front + parts[i] + none =~= join(parts, sep));
    } else {
        let front = join(parts.drop_last(), sep);
        lemma_join_has(parts.drop_last(), sep, i);
        lemma_text_between(none, front, sep + parts.last());
        assert(none + front + (sep + parts.last()) =~= join(parts, sep));
        lemma_text_within(join(parts, sep), front, parts[i]);
    }
}

/// Two runs without white space and one white space between them are two words.
pub proof fn lemma_two_words(a: Seq<char>, gap: char, b: Seq<char>)
    requires
        a.len() > 0,
        b.len() > 0,
        is_white(gap),
        forall|i: int| 0 <= i < a.len() ==> !is_white(#[trigger] a[i]),
        forall|i: int| 0 <= i < b.len() ==> !is_white(#[trigger] b[i]),
    ensures
        words(a + seq![gap] + b) == seq![a, b],
{
    let s = a + seq![gap] + b;
    let rest = seq![gap] + b;
    let none = Seq::<char>::empty();
    assert forall|i: int| 0 <= i < a.len() implies !is_white(s[i]) by {
        assert(s[i] == a[i]);
    }
    lemma_find_white_is(s, a.len() as int);
    assert(s.take(a.len() as int) =~= a);
    assert(s.skip(a.len() as int) =~= rest);
    assert(!is_white(s[0]));
    assert(words(s) == seq![a] + words(rest));
    assert(rest.skip(1) =~= b);
    assert(!is_white(b[0]));
    assert(trim_start(b) == b);
    assert(trim_start(rest) == b);
    lemma_find_white_is(b, b.len() as int);
    assert(b.take(b.len() as int) =~= b);
    assert(b.skip(b.len() as int) =~= none);
    assert(trim_start(none) == none);
    assert(words(none) =~= Seq::<Seq<char>>::empty());
    assert(words(rest) =~= seq![b] + words(none));
    assert(seq![a] + (seq![b] + words(none)) =~= seq![a, b]);
}

/// Trimming leaves no white space at the ends, and takes from the ends only.
pub proof fn lemma_trim(s: Seq<char>)
    ensures
        trim(s).len() > 0 ==> !is_white(trim(s)[0]) && !is_white(trim(s).last()),
        forall|c: char| #[trigger] trim(s).contains(c) ==> s.contains(c),
{
    lemma_trim_start_keeps(s);
    lemma_trim_end_keeps(trim_start(s));
    lemma_trim_start(s);
}

/// What is left behind leading white space was there.
proof fn lemma_trim_start_keeps(s: Seq<char>)
    ensures
        forall|c: char| #[trigger] trim_start(s).contains(c) ==> s.contains(c),
    decreases s.len(),
{
    if s.len() > 0 && is_white(s[0]) {
        lemma_trim_start_keeps(s.skip(1));
        assert forall|c: char| #[trigger] trim_start(s).contains(c) implies s.contains(c) by {
            assert(trim_start(s.skip(1)).contains(c));
            let i = choose|i: int| 0 <= i < s.skip(1).len() && s.skip(1)[i] == c;
            assert(s[i + 1] == c);
        }
    }
}

/// What is left before trailing white space was there, and starts the same.
proof fn lemma_trim_end_keeps(s: Seq<char>)
    ensures
        forall|c: char| #[trigger] trim_end(s).contains(c) ==> s.contains(c),
        trim_end(s).len() > 0 ==> trim_end(s)[0] == s[0] && !is_white(trim_end(s).last()),
    decreases s.len(),
{
    if s.len() > 0 && is_white(s.last()) {
        lemma_trim_end_keeps(s.drop_last());
        assert forall|c: char| #[trigger] trim_end(s).contains(c) implies s.contains(c) by {
            assert(trim_end(s.drop_last()).contains(c));
            let i = choose|i: int| 0 <= i < s.drop_last().len() && s.drop_last()[i] == c;
            assert(s[i] == c);
        }
    }
}

/// Whether the text is white space only.
pub open spec fn all_white(s: Seq<char>) -> bool {
    forall|i: int| 0 <= i < s.len() ==> is_white(#[trigger] s[i])
}

/// Leading white space is no part of what is left.
pub proof fn lemma_trim_start_white(m: Seq<char>, u: Seq<char>)
    requires
        all_white(m),
    ensures
        trim_start(m + u) == trim_start(u),
    decreases m.len(),
{
    if m.len() == 0 {
        assert(m + u =~= u);
    } else {
        let rest = m.skip(1);
        assert(is_white(m[0]));
        assert forall|i: int| 0 <= i < rest.len() implies is_white(#[trigger] rest[i]) by {
            assert(is_white(m[i + 1]));
        }
        lemma_trim_start_white(rest, u);
        assert((m + u).skip(1) =~= rest + u);
        assert((m + u)[0] == m[0]);
    }
}

/// Trailing white space is no part of what is left.
pub proof fn lemma_trim_end_white(u: Seq<char>, m: Seq<char>)
    requires
        all_white(m),
    ensures
        trim_end(u + m) == trim_end(u),
    decreases m.len(),
{
    if m.len() == 0 {
        assert(u + m =~= u);
    } else {
        let rest = m.drop_last();
        assert(is_white(m[m.len() - 1]));
        assert forall|i: int| 0 <= i < rest.len() implies is_white(#[trigger] rest[i]) by {
            assert(is_white(m[i]));
        }
        lemma_trim_end_white(u, rest);
        assert((u + m).drop_last() =~= u + rest);
        assert((u + m).last() == m.last());
    }
}

/// Trimming the start leaves alone what follows the first character that stays.
proof fn lemma_trim_start_front(u: Seq<char>, m: Seq<char>)
    ensures
        all_white(u) ==> trim_start(u).len() == 0,
        !all_white(u) ==> trim_start(u + m) == trim_start(u) + m,
    decreases u.len(),
{
    if u.len() > 0 {
        if is_white(u[0]) {
            let rest = u.skip(1);
            lemma_trim_start_front(rest, m);
            assert((u + m).skip(1) =~= rest + m);
            assert((u + m)[0] == u[0]);
            if all_white(u) {
                assert forall|i: int| 0 <= i < rest.len() implies is_white(#[trigger] rest[i]) by {
                    assert(is_white(u[i + 1]));
                }
            } else {
                let i = choose|i: int| 0 <= i < u.len() && !is_white(u[i]);
                assert(!is_white(rest[i - 1]));
            }
        } else {
            assert((u + m)[0] == u[0]);
        }
    }
}

/// White space around a text is not part of its trimming.
pub proof fn lemma_trim_margins(m: Seq<char>, u: Seq<char>, n: Seq<char>)
    requires
        all_white(m),
        all_white(n),
    ensures
        trim(m + u + n) == trim(u),
{
    assert(m + u + n =~= m + (u + n));
    lemma_trim_start_white(m, u + n);
    lemma_trim_start_front(u, n);
    if all_white(u) {
        let none = Seq::<char>::empty();
        lemma_trim_start_white(u, n);
        lemma_trim_start_front(n, none);
        assert(trim_start(n) =~= none);
        assert(trim_start(u) =~= none);
    } else {
        lemma_trim_end_white(trim_start(u), n);
    }
}

/// A text is its trimming between two runs of white space.
pub proof fn lemma_trim_parts(s: Seq<char>) -> (r: (Seq<char>, Seq<char>))
    ensures
        all_white(r.0),
        all_white(r.1),
        s == r.0 + trim(s) + r.1,
{
    let m = lemma_trim_start_parts(s);
    let n = lemma_trim_end_parts(trim_start(s));
    assert(s =~= m + trim(s) + n);
    (m, n)
}

/// A text is white space and then what is left when its start is trimmed.
proof fn lemma_trim_start_parts(s: Seq<char>) -> (r: Seq<char>)
    ensures
        all_white(r),
        s == r + trim_start(s),
    decreases s.len(),
{
    if s.len() > 0 && is_white(s[0]) {
        let m = lemma_trim_start_parts(s.skip(1));
        let r = seq![s[0]] + m;
        assert(s =~= r + trim_start(s)) by {
            assert(s.skip(1) == m + trim_start(s.skip(1)));
            assert(s =~= seq![s[0]] + s.skip(1));
        }
        r
    } else {
        assert(s =~= Seq::<char>::empty() + s);
        Seq::empty()
    }
}

/// A text is what is left when its end is trimmed, and then white space.
proof fn lemma_trim_end_parts(s: Seq<char>) -> (r: Seq<char>)
    ensures
        all_white(r),
        s == trim_end(s) + r,
    decreases s.len(),
{
    if s.len() > 0 && is_white(s.last()) {
        let m = lemma_trim_end_parts(s.drop_last());
        let r = m.push(s.last());
        assert(s =~= trim_end(s) + r) by {
            assert(s =~= s.drop_last().push(s.last()));
        }
        r
    } else {
        assert(s =~= s + Seq::<char>::empty());
        Seq::empty()
    }
}

/// What follows a character does not matter to what stands before it; and
/// nothing that stands behind it in the front does either.
pub proof fn lemma_before(s: Seq<char>, c: char, t: Seq<char>)
    ensures
        before(s + seq![c] + t, c) == before(s, c),
        s.contains(c) ==> before(s + t, c) == before(s, c),
        !s.contains(c) ==> before(s + t, c) == s + before(t, c),
{
    lemma_find(s, c);
    lemma_find(t, c);
    let k = find(s, c);
    let whole = s + seq![c] + t;
    assert forall|i: int| 0 <= i < k implies whole[i] != c && (s + t)[i] != c by {
        assert(s[i] != c);
    }
    if k < s.len() {
        assert(whole[k] == c && (s + t)[k] == c);
        assert(s.contains(c));
        lemma_find_is(whole, c, k);
        lemma_find_is(s + t, c, k);
        assert(whole.take(k) =~= s.take(k));
        assert((s + t).take(k) =~= s.take(k));
    } else {
        assert(!s.contains(c)) by {
            if s.contains(c) {
                let i = choose|i: int| 0 <= i < s.len() && s[i] == c;
                assert(s[i] != c);
            }
        }
        assert(whole[k] == c);
        lemma_find_is(whole, c, k);
        assert(whole.take(k) =~= s.take(k));
        let j = find(t, c);
        assert forall|i: int| 0 <= i < k + j implies (s + t)[i] != c by {
            if i >= k {
                assert((s + t)[i] == t[i - k]);
            }
        }
        lemma_find_is(s + t, c, k + j);
        assert((s + t).take(k + j) =~= s + t.take(j));
    }
}

/// Trimming before a comment is cut off changes nothing of what is left.
pub proof fn lemma_trim_before(s: Seq<char>, c: char)
    requires
        !is_white(c),
    ensures
        trim(before(trim(s), c)) == trim(before(s, c)),
{
    let (m, n) = lemma_trim_parts(s);
    let y = trim(s);
    assert(s =~= m + (y + n));
    lemma_white_has_not(m, c);
    lemma_white_has_not(n, c);
    lemma_before(m, c, y + n);
    lemma_before(y, c, n);
    let none = Seq::<char>::empty();
    if y.contains(c) {
        lemma_trim_margins(m, before(y, c), none);
        assert(m + before(y, c) + none =~= m + before(y, c));
    } else {
        lemma_split_single(n, c);
        lemma_split_single(y, c);
        lemma_trim_margins(m, y, n);
        assert(m + y + n =~= m + (y + n));
    }
}

/// White space holds nothing else.
pub proof fn lemma_white_has_not(m: Seq<char>, c: char)
    requires
        all_white(m),
        !is_white(c),
    ensures
        !m.contains(c),
{
    if m.contains(c) {
        let i = choose|i: int| 0 <= i < m.len() && m[i] == c;
        assert(is_white(m[i]));
    }
}

/// The first word of a text, and the words behind it.
pub proof fn lemma_first_word(m: Seq<char>, w: Seq<char>, rest: Seq<char>)
    requires
        all_white(m),
        w.len() > 0,
        forall|i: int| 0 <= i < w.len() ==> !is_white(#[trigger] w[i]),
        rest.len() == 0 || is_white(rest[0]),
    ensures
        words(m + w + rest) == seq![w] + words(rest),
{
    let s = m + w + rest;
    let t = w + rest;
    assert(s =~= m + t);
    lemma_trim_start_white(m, t);
    assert(!is_white(w[0]) && t[0] == w[0]);
    assert(trim_start(s) == t);
    assert forall|i: int| 0 <= i < w.len() implies !is_white(t[i]) by {
        assert(t[i] == w[i]);
    }
    if rest.len() > 0 {
        assert(t[w.len() as int] == rest[0]);
    }
    lemma_find_white_is(t, w.len() as int);
    assert(t.take(w.len() as int) =~= w);
    assert(t.skip(w.len() as int) =~= rest);
}

/// White space holds no words.
pub proof fn lemma_no_words(m: Seq<char>)
    requires
        all_white(m),
    ensures
        words(m) == Seq::<Seq<char>>::empty(),
{
    lemma_trim_start_front(m, m);
    lemma_trim_start(m);
}

/// White space around a text holds none of its words.
pub proof fn lemma_words_margins(m: Seq<char>, u: Seq<char>, n: Seq<char>)
    requires
        all_white(m),
        all_white(n),
    ensures
        words(m + u + n) == words(u),
{
    assert(m + u + n =~= m + (u + n));
    lemma_trim_start_white(m, u + n);
    lemma_words_end(u, n);
}

/// White space behind a text holds none of its words.
proof fn lemma_words_end(u: Seq<char>, n: Seq<char>)
    requires
        all_white(n),
    ensures
        words(u + n) == words(u),
    decreases u.len(),
{
    let none = Seq::<char>::empty();
    lemma_trim_start_front(u, n);
    if all_white(u) {
        lemma_no_words(u);
        assert forall|i: int| 0 <= i < (u + n).len() implies is_white(#[trigger] (u + n)[i]) by {
            if i < u.len() {
                assert(is_white(u[i]));
            } else {
                assert(is_white(n[i - u.len()]));
            }
        }
        lemma_no_words(u + n);
    } else {
        let t = trim_start(u);
        lemma_trim_start(u);
        lemma_find_white(t);
        let k = find_white(t);
        let tn = t + n;
        assert(t.len() > 0) by {
            if t.len() == 0 {
                let m = lemma_trim_start_parts(u);
                assert(u =~= m);
            }
        }
        assert forall|i: int| 0 <= i < k implies !is_white(tn[i]) by {
            assert(tn[i] == t[i]);
        }
        if k < t.len() {
            assert(tn[k] == t[k]);
            lemma_find_white_is(tn, k);
            assert(tn.take(k) =~= t.take(k));
            assert(tn.skip(k) =~= t.skip(k) + n);
            lemma_words_end(t.skip(k), n);
        } else {
            if n.len() > 0 {
                assert(tn[k] == n[0]);
                assert(is_white(n[0]));
            }
            lemma_find_white_is(tn, k);
            assert(tn.take(k) =~= t.take(k));
            assert(tn.skip(k) =~= n);
            assert(t.skip(k) =~= none);
            lemma_no_words(n);
            lemma_no_words(none);
        }
    }
}

/// The lines of two texts with a line feed between them.
pub proof fn lemma_lines_joined(a: Seq<char>, b: Seq<char>)
    ensures
        lines(a + seq!['\n'] + b) == lines(a + seq!['\n']) + lines(b),
    decreases a.len(),
{
    let s = a + seq!['\n'] + b;
    let head = a + seq!['\n'];
    let none = Seq::<char>::empty();
    lemma_find(a, '\n');
    let k = find(a, '\n');
    if k < a.len() {
        let front = a.take(k);
        let rest = a.skip(k + 1);
        assert(!front.contains('\n'));
        assert(a =~= front + seq!['\n'] + rest);
        lemma_split_first(front, '\n', rest + seq!['\n'] + b);
        assert(s =~= front + seq!['\n'] + (rest + seq!['\n'] + b));
        lemma_split_first(front, '\n', rest + seq!['\n']);
        assert(head =~= front + seq!['\n'] + (rest + seq!['\n']));
        lemma_lines_joined(rest, b);
        lemma_lines_first(front, rest + seq!['\n'] + b);
        lemma_lines_first(front, rest + seq!['\n']);
        assert(lines(s) =~= lines(head) + lines(b));
    } else {
        assert(!a.contains('\n'));
        lemma_lines_first(a, b);
        lemma_lines_first(a, none);
        assert(head =~= a + seq!['\n'] + none);
        assert(lines(none) =~= Seq::<Seq<char>>::empty());
        assert(lines(s) =~= lines(head) + lines(b));
    }
}

/// The first line of a text.
pub proof fn lemma_lines_first(a: Seq<char>, b: Seq<char>)
    requires
        !a.contains('\n'),
    ensures
        lines(a + seq!['\n'] + b) == seq![strip_cr(a)] + lines(b),
{
    let s = a + seq!['\n'] + b;
    lemma_split_first(a, '\n', b);
    lemma_find(s, '\n');
    assert(split_once(s, '\n') == Some((a, b)));
}

/// A text without a line feed is one line, or none where it is empty.
pub proof fn lemma_lines_single(a: Seq<char>)
    requires
        !a.contains('\n'),
    ensures
        a.len() > 0 ==> lines(a) == seq![a],
        a.len() == 0 ==> lines(a) == Seq::<Seq<char>>::empty(),
{
    lemma_find_is(a, '\n', a.len() as int);
}

// ---------------------------------------------------------------------------
// Computations
// ---------------------------------------------------------------------------

/// The characters of a string.
pub fn to_chars(s: &str) -> (r: Vec<char>)
    ensures
        r@ == s@,
{
    let mut r: Vec<char> = Vec::new();
    for c in it: s.chars()
        invariant
            it.seq() == s@,
            r@ == s@.take(it.index() as int),
    {
        r.push(c);
    }
    r
}

/// The string with the given characters.
pub fn to_text(s: &[char]) -> (r: String)
    ensures
        r@ == s@,
{
    let mut r = String::new();
    for i in 0..s.len()
        invariant
            r@ == s@.take(i as int),
    {
        r.push(s[i]);
        assert(s@.take(i as int).push(s@[i as int]) =~= s@.take(i + 1));
    }
    assert(s@.take(s@.len() as int) =~= s@);
    r
}

/// Whether two strings hold the same characters.
pub fn same_str(a: &str, b: &str) -> (r: bool)
    ensures
        r == (a@ == b@),
{
    let x = a.as_bytes();
    let y = b.as_bytes();
    proof {
        vstd::utf8::encode_utf8_decode_utf8(a@);
        vstd::utf8::encode_utf8_decode_utf8(b@);
    }
    if x.len() != y.len() {
        return false;
    }
    for i in 0..x.len()
        invariant
            x.len() == y.len(),
            x@ == vstd::utf8::encode_utf8(a@),
            y@ == vstd::utf8::encode_utf8(b@),
            forall|j: int| 0 <= j < i ==> x@[j] == y@[j],
    {
        if x[i] != y[i] {
            return false;
        }
    }
    assert(x@ =~= y@);
    true
}

/// Whether the characters are those of the string.
pub fn same_text(a: &[char], b: &str) -> (r: bool)
    ensures
        r == (a@ == b@),
{
    let y = to_chars(b);
    if a.len() != y.len() {
        return false;
    }
    for i in 0..a.len()
        invariant
            a.len() == y.len(),
            y@ == b@,
            forall|j: int| 0 <= j < i ==> a@[j] == y@[j],
    {
        if a[i] != y[i] {
            return false;
        }
    }
    assert(a@ =~= y@);
    true
}

/// Whether `c` is white space.
pub fn char_is_white(c: char) -> (r: bool)
    ensures
        r == is_white(c),
{
    ('\u{9}' <= c && c <= '\u{d}') || c == '\u{20}' || c == '\u{85}' || c == '\u{a0}' || c
        == '\u{1680}' || ('\u{2000}' <= c && c <= '\u{200a}') || c == '\u{2028}' || c
        == '\u{2029}' || c == '\u{202f}' || c == '\u{205f}' || c == '\u{3000}'
}

/// The characters without leading white space.
pub fn trim_start_chars(s: &[char]) -> (r: &[char])
    ensures
        r@ == trim_start(s@),
{
    let mut i: usize = 0;
    assert(s@.skip(0) =~= s@);
    while i < s.len() && char_is_white(s[i])
        invariant
            i <= s.len(),
            trim_start(s@.skip(i as int)) == trim_start(s@),
        decreases s.len() - i,
    {
        assert(s@.skip(i as int).skip(1) =~= s@.skip(i + 1));
        i = i + 1;
    }
    slice_subrange(s, i, s.len())
}

/// The characters without trailing white space.
pub fn trim_end_chars(s: &[char]) -> (r: &[char])
    ensures
        r@ == trim_end(s@),
{
    let mut n: usize = s.len();
    assert(s@.take(n as int) =~= s@);
    while n > 0 && char_is_white(s[n - 1])
        invariant
            n <= s.len(),
            trim_end(s@.take(n as int)) == trim_end(s@),
        decreases n,
    {
        assert(s@.take(n as int).drop_last() =~= s@.take(n - 1));
        n = n - 1;
    }
    slice_subrange(s, 0, n)
}

/// The characters without white space at either end.
pub fn trim_chars(s: &[char]) -> (r: &[char])
    ensures
        r@ == trim(s@),
{
    trim_end_chars(trim_start_chars(s))
}

/// The characters without the copies of `c` at either end.
pub fn strip_both_chars(s: &[char], c: char) -> (r: &[char])
    ensures
        r@ == strip_both(s@, c),
{
    let mut i: usize = 0;
    assert(s@.skip(0) =~= s@);
    while i < s.len() && s[i] == c
        invariant
            i <= s.len(),
            strip_start(s@.skip(i as int), c) == strip_start(s@, c),
        decreases s.len() - i,
    {
        assert(s@.skip(i as int).skip(1) =~= s@.skip(i + 1));
        i = i + 1;
    }
    let t = slice_subrange(s, i, s.len());
    let mut n: usize = t.len();
    assert(t@.take(n as int) =~= t@);
    while n > 0 && t[n - 1] == c
        invariant
            n <= t.len(),
            strip_end(t@.take(n as int), c) == strip_end(t@, c),
        decreases n,
    {
        assert(t@.take(n as int).drop_last() =~= t@.take(n - 1));
        n = n - 1;
    }
    slice_subrange(t, 0, n)
}

/// The index of the first `c`, or the length without one.
pub fn find_char(s: &[char], c: char) -> (r: usize)
    ensures
        r == find(s@, c),
{
    let mut i: usize = 0;
    while i < s.len() && s[i] != c
        invariant
            i <= s.len(),
            forall|j: int| 0 <= j < i ==> s@[j] != c,
        decreases s.len() - i,
    {
        i = i + 1;
    }
    proof {
        lemma_find_is(s@, c, i as int);
    }
    i
}

/// The characters before the first `c`, or all of them without one.
pub fn before_char(s: &[char], c: char) -> (r: &[char])
    ensures
        r@ == before(s@, c),
{
    let k = find_char(s, c);
    proof {
        lemma_find(s@, c);
    }
    slice_subrange(s, 0, k)
}

/// The characters before and after the first `c`.
pub fn split_once_char(s: &[char], c: char) -> (r: Option<(&[char], &[char])>)
    ensures
        match r {
            Some((a, b)) => split_once(s@, c) == Some((a@, b@)),
            None => split_once(s@, c) is None,
        },
{
    let k = find_char(s, c);
    proof {
        lemma_find(s@, c);
    }
    if k < s.len() {
        Some((slice_subrange(s, 0, k), slice_subrange(s, k + 1, s.len())))
    } else {
        None
    }
}

/// The contents of a vector of slices.
pub open spec fn slices(v: Seq<&[char]>) -> Seq<Seq<char>> {
    Seq::new(v.len(), |i: int| v[i]@)
}

/// The fields between the separators `c`.
pub fn split_chars(s: &[char], c: char) -> (r: Vec<&[char]>)
    ensures
        slices(r@) == split(s@, c),
{
    let mut r: Vec<&[char]> = Vec::new();
    let mut rest = s;
    assert(slices(r@) + split(rest@, c) =~= split(s@, c));
    loop
        invariant
            slices(r@) + split(rest@, c) == split(s@, c),
        decreases rest.len(),
    {
        proof {
            lemma_find(rest@, c);
        }
        let ghost done = slices(r@);
        match split_once_char(rest, c) {
            Some((a, b)) => {
                r.push(a);
                assert(slices(r@) =~= done.push(a@));
                assert(done.push(a@) + split(b@, c) =~= done + (seq![a@] + split(b@, c)));
                rest = b;
            },
            None => {
                r.push(rest);
                assert(slices(r@) =~= done + seq![rest@]);
                return r;
            },
        }
    }
}

/// The lines of the text.
pub fn lines_chars(s: &[char]) -> (r: Vec<&[char]>)
    ensures
        slices(r@) == lines(s@),
{
    let mut r: Vec<&[char]> = Vec::new();
    let mut rest = s;
    assert(slices(r@) + lines(rest@) =~= lines(s@));
    while rest.len() > 0
        invariant
            slices(r@) + lines(rest@) == lines(s@),
        decreases rest.len(),
    {
        proof {
            lemma_find(rest@, '\n');
        }
        let ghost done = slices(r@);
        match split_once_char(rest, '\n') {
            Some((a, b)) => {
                let line = if a.len() > 0 && a[a.len() - 1] == '\r' {
                    slice_subrange(a, 0, a.len() - 1)
                } else {
                    a
                };
                r.push(line);
                assert(slices(r@) =~= done.push(strip_cr(a@)));
                assert(done.push(line@) + lines(b@) =~= done + (seq![line@] + lines(b@)));
                rest = b;
            },
            None => {
                r.push(rest);
                assert(slices(r@) =~= done + seq![rest@]);
                return r;
            },
        }
    }
    assert(slices(r@) + lines(rest@) =~= slices(r@));
    r
}

/// The words of the text.
pub fn words_chars(s: &[char]) -> (r: Vec<&[char]>)
    ensures
        slices(r@) == words(s@),
{
    let mut r: Vec<&[char]> = Vec::new();
    let mut rest = s;
    assert(slices(r@) + words(rest@) =~= words(s@));
    loop
        invariant
            slices(r@) + words(rest@) == words(s@),
        decreases rest.len(),
    {
        let ghost done = slices(r@);
        proof {
            lemma_trim_start(rest@);
        }
        let t = trim_start_chars(rest);
        if t.len() == 0 {
            assert(slices(r@) + words(rest@) =~= slices(r@));
            return r;
        }
        let mut k: usize = 0;
        while k < t.len() && !char_is_white(t[k])
            invariant
                k <= t.len(),
                forall|j: int| 0 <= j < k ==> !is_white(t@[j]),
            decreases t.len() - k,
        {
            k = k + 1;
        }
        proof {
            lemma_find_white_is(t@, k as int);
            lemma_find_white(t@);
        }
        let word = slice_subrange(t, 0, k);
        let next = slice_subrange(t, k, t.len());
        r.push(word);
        assert(slices(r@) =~= done.push(word@));
        assert(done.push(word@) + words(next@) =~= done + (seq![word@] + words(next@)));
        rest = next;
    }
}

/// Whether `needle` occurs in the characters.
pub fn has_text_chars(s: &[char], needle: &[char]) -> (r: bool)
    ensures
        r == has_text(s@, needle@),
{
    if needle.len() > s.len() {
        return false;
    }
    let mut k: usize = 0;
    while k <= s.len() - needle.len()
        invariant
            needle.len() <= s.len(),
            k <= s.len() - needle.len() + 1,
            forall|j: int| 0 <= j < k ==> !text_at(s@, needle@, j),
        decreases s.len() - needle.len() + 1 - k,
    {
        let mut i: usize = 0;
        while i < needle.len() && s[k + i] == needle[i]
            invariant
                needle.len() <= s.len(),
                k <= s.len() - needle.len(),
                i <= needle.len(),
                forall|j: int| 0 <= j < i ==> s@[k + j] == needle@[j],
            decreases needle.len() - i,
        {
            i = i + 1;
        }
        if i == needle.len() {
            assert(s@.subrange(k as int, k + needle@.len()) =~= needle@);
            assert(text_at(s@, needle@, k as int));
            return true;
        }
        assert(s@.subrange(k as int, k + needle@.len())[i as int] != needle@[i as int]);
        if k == s.len() - needle.len() {
            return false;
        }
        k = k + 1;
    }
    false
}

/// `c` with an ASCII capital letter replaced by the small one.
pub fn lower_char(c: char) -> (r: char)
    ensures
        r == lower(c),
{
    if 'A' <= c && c <= 'Z' {
        (c as u8 + 32) as char
    } else {
        c
    }
}

/// Whether two strings are equal up to the case of ASCII letters.
pub fn same_str_ignoring_case(a: &str, b: &str) -> (r: bool)
    ensures
        r == same_ignoring_case(a@, b@),
{
    let x = to_chars(a);
    let y = to_chars(b);
    if x.len() != y.len() {
        return false;
    }
    for i in 0..x.len()
        invariant
            x.len() == y.len(),
            x@ == a@,
            y@ == b@,
            forall|j: int| 0 <= j < i ==> lower(x@[j]) == lower(y@[j]),
    {
        if lower_char(x[i]) != lower_char(y[i]) {
            return false;
        }
    }
    true
}

/// Two strings, one behind the other.
pub fn cat2(a: &str, b: &str) -> (r: String)
    ensures
        r@ == a@ + b@,
{
    let mut r = a.to_owned();
    r.append(b);
    r
}

/// Three strings, one behind the other.
pub fn cat3(a: &str, b: &str, c: &str) -> (r: String)
    ensures
        r@ == a@ + b@ + c@,
{
    let mut r = a.to_owned();
    r.append(b);
    r.append(c);
    r
}

/// Four strings, one behind the other.
pub fn cat4(a: &str, b: &str, c: &str, d: &str) -> (r: String)
    ensures
        r@ == a@ + b@ + c@ + d@,
{
    let mut r = a.to_owned();
    r.append(b);
    r.append(c);
    r.append(d);
    r
}

/// Five strings, one behind the other.
pub fn cat5(a: &str, b: &str, c: &str, d: &str, e: &str) -> (r: String)
    ensures
        r@ == a@ + b@ + c@ + d@ + e@,
{
    let mut r = a.to_owned();
    r.append(b);
    r.append(c);
    r.append(d);
    r.append(e);
    r
}

/// Seven strings, one behind the other.
pub fn cat7(a: &str, b: &str, c: &str, d: &str, e: &str, f: &str, g: &str) -> (r: String)
    ensures
        r@ == a@ + b@ + c@ + d@ + e@ + f@ + g@,
{
    let mut r = a.to_owned();
    r.append(b);
    r.append(c);
    r.append(d);
    r.append(e);
    r.append(f);
    r.append(g);
    r
}

/// Adds a string to the end of a list.
pub fn add_text(v: &mut Vec<String>, s: String)
    ensures
        texts(final(v)@) == texts(old(v)@).push(s@),
{
    let ghost t = s@;
    v.push(s);
    assert(texts(v@) =~= texts(old(v)@).push(t));
}

/// The strings with `sep` between them.
pub fn join_strings(parts: &Vec<String>, sep: &str) -> (r: String)
    ensures
        r@ == join(texts(parts@), sep@),
{
    let mut r = String::new();
    for i in 0..parts.len()
        invariant
            r@ == join(texts(parts@).take(i as int), sep@),
    {
        let ghost all = texts(parts@);
        if i > 0 {
            r.append(sep);
        }
        r.append(parts[i].as_str());
        proof {
            assert(all.take(i + 1).drop_last() =~= all.take(i as int));
            if i == 0 {
                assert(r@ =~= all[0]);
            }
        }
    }
    assert(texts(parts@).take(parts@.len() as int) =~= texts(parts@));
    r
}

/// The strings, each followed by a line feed.
pub fn unlines_strings(parts: &Vec<String>) -> (r: String)
    ensures
        r@ == unlines(texts(parts@)),
{
    let mut r = String::new();
    for i in 0..parts.len()
        invariant
            r@ == unlines(texts(parts@).take(i as int)),
    {
        let ghost all = texts(parts@);
        let ghost start = r@;
        r.append(parts[i].as_str());
        r.push('\n');
        assert(all.take(i + 1).drop_last() =~= all.take(i as int));
        assert(r@ =~= start + all[i as int] + seq!['\n']);
    }
    assert(texts(parts@).take(parts@.len() as int) =~= texts(parts@));
    r
}

} // verus!
