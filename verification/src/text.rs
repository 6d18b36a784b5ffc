//! Texts as sequences of characters.

use vstd::prelude::*;

verus! {

/// `String::push` appends one character to the end of the string.
pub assume_specification[ String::push ](s: &mut String, c: char)
    ensures
        final(s)@ == old(s)@.push(c),
;

/// The characters of `text`, in order.
pub fn to_chars(text: &str) -> (chars: Vec<char>)
    ensures
        chars@ == text@,
{
    let mut chars: Vec<char> = Vec::new();
    for c in it: text.chars()
        invariant
            chars@ == it.seq().take(it.index() as int),
            it.seq() == text@,
    {
        chars.push(c);
    }
    chars
}

/// The string made of `chars`, in order.
pub fn to_text(chars: &Vec<char>) -> (text: String)
    ensures
        text@ == chars@,
{
    let mut text: String = String::new();
    let mut i: usize = 0;
    while i < chars.len()
        invariant
            i <= chars.len(),
            text@ == chars@.take(i as int),
        decreases chars.len() - i,
    {
        text.push(chars[i]);
        proof {
            assert(chars@.take(i as int + 1) == chars@.take(i as int).push(chars@[i as int]));
        }
        i += 1;
    }
    text
}

/// Whether `c` has the Unicode property White_Space.
pub open spec fn spec_is_whitespace(c: char) -> bool {
    let u = c as u32;
    ||| 0x09 <= u <= 0x0d
    ||| u == 0x20
    ||| u == 0x85
    ||| u == 0xa0
    ||| u == 0x1680
    ||| 0x2000 <= u <= 0x200a
    ||| u == 0x2028
    ||| u == 0x2029
    ||| u == 0x202f
    ||| u == 0x205f
    ||| u == 0x3000
}

/// `s` without the whitespace it starts with.
pub open spec fn spec_trim_start(s: Seq<char>) -> Seq<char>
    decreases s.len(),
{
    if s.len() > 0 && spec_is_whitespace(s.first()) {
        spec_trim_start(s.drop_first())
    } else {
        s
    }
}

/// `s` without the whitespace it ends with.
pub open spec fn spec_trim_end(s: Seq<char>) -> Seq<char>
    decreases s.len(),
{
    if s.len() > 0 && spec_is_whitespace(s.last()) {
        spec_trim_end(s.drop_last())
    } else {
        s
    }
}

/// `s` without the whitespace at either end.
pub open spec fn spec_trim(s: Seq<char>) -> Seq<char> {
    spec_trim_end(spec_trim_start(s))
}

/// The test that a character is not `c`.
pub open spec fn is_not(c: char) -> spec_fn(char) -> bool {
    |x: char| x != c
}

/// The test that a character is no whitespace.
pub open spec fn is_not_whitespace() -> spec_fn(char) -> bool {
    |x: char| !spec_is_whitespace(x)
}

/// `s` without any occurrence of `c`.
pub open spec fn spec_remove(s: Seq<char>, c: char) -> Seq<char> {
    s.filter(is_not(c))
}

/// `s` without any whitespace.
pub open spec fn spec_strip_whitespace(s: Seq<char>) -> Seq<char> {
    s.filter(is_not_whitespace())
}

/// `s` with `to` in place of every occurrence of `from`.
pub open spec fn spec_replace(s: Seq<char>, from: char, to: char) -> Seq<char> {
    s.map_values(
        |x: char|
            if x == from {
                to
            } else {
                x
            },
    )
}

/// Whether `c` has the Unicode property White_Space.
pub fn is_whitespace(c: char) -> (b: bool)
    ensures
        b == spec_is_whitespace(c),
{
    let u: u32 = c as u32;
    (0x09 <= u && u <= 0x0d) || u == 0x20 || u == 0x85 || u == 0xa0 || u == 0x1680 || (0x2000 <= u
        && u <= 0x200a) || u == 0x2028 || u == 0x2029 || u == 0x202f || u == 0x205f || u == 0x3000
}

/// A copy of `s` from index `from` up to, not including, index `to`.
pub fn slice(s: &Vec<char>, from: usize, to: usize) -> (out: Vec<char>)
    requires
        from <= to <= s.len(),
    ensures
        out@ == s@.subrange(from as int, to as int),
{
    let mut out: Vec<char> = Vec::new();
    let mut i: usize = from;
    while i < to
        invariant
            from <= i <= to <= s.len(),
            out@ == s@.subrange(from as int, i as int),
        decreases to - i,
    {
        out.push(s[i]);
        i += 1;
    }
    out
}

/// A copy of `s` without the whitespace at either end.
pub fn trim(s: &Vec<char>) -> (out: Vec<char>)
    ensures
        out@ == spec_trim(s@),
{
    let mut from: usize = 0;
    proof {
        assert(s@.skip(0) == s@);
    }
    while from < s.len() && is_whitespace(s[from])
        invariant
            from <= s.len(),
            spec_trim_start(s@) == spec_trim_start(s@.skip(from as int)),
        decreases s.len() - from,
    {
        proof {
            assert(s@.skip(from as int).drop_first() == s@.skip(from as int + 1));
        }
        from += 1;
    }
    let mut to: usize = s.len();
    while from < to && is_whitespace(s[to - 1])
        invariant
            from <= to <= s.len(),
            spec_trim_end(s@.skip(from as int)) == spec_trim_end(
                s@.subrange(from as int, to as int),
            ),
        decreases to - from,
    {
        proof {
            assert(s@.subrange(from as int, to as int).drop_last() == s@.subrange(
                from as int,
                to as int - 1,
            ));
        }
        to -= 1;
    }
    proof {
        assert(s@.skip(from as int) == s@.subrange(from as int, s@.len() as int));
    }
    slice(s, from, to)
}

/// A copy of `s` without any occurrence of `c`.
pub fn remove(s: &Vec<char>, c: char) -> (out: Vec<char>)
    ensures
        out@ == spec_remove(s@, c),
{
    let ghost keep = is_not(c);
    let mut out: Vec<char> = Vec::new();
    let mut i: usize = 0;
    while i < s.len()
        invariant
            i <= s.len(),
            keep == is_not(c),
            out@ == s@.take(i as int).filter(keep),
        decreases s.len() - i,
    {
        proof {
            s@.take(i as int).lemma_filter_push(s@[i as int], keep);
            assert(s@.take(i as int + 1) == s@.take(i as int).push(s@[i as int]));
        }
        if s[i] != c {
            out.push(s[i]);
        }
        i += 1;
    }
    proof {
        assert(s@.take(s@.len() as int) == s@);
    }
    out
}

/// A copy of `s` without any whitespace.
pub fn strip_whitespace(s: &Vec<char>) -> (out: Vec<char>)
    ensures
        out@ == spec_strip_whitespace(s@),
{
    let ghost keep = is_not_whitespace();
    let mut out: Vec<char> = Vec::new();
    let mut i: usize = 0;
    while i < s.len()
        invariant
            i <= s.len(),
            keep == is_not_whitespace(),
            out@ == s@.take(i as int).filter(keep),
        decreases s.len() - i,
    {
        proof {
            s@.take(i as int).lemma_filter_push(s@[i as int], keep);
            assert(s@.take(i as int + 1) == s@.take(i as int).push(s@[i as int]));
        }
        if !is_whitespace(s[i]) {
            out.push(s[i]);
        }
        i += 1;
    }
    proof {
        assert(s@.take(s@.len() as int) == s@);
    }
    out
}

/// A copy of `s` with `to` in place of every occurrence of `from`.
pub fn replace(s: &Vec<char>, from: char, to: char) -> (out: Vec<char>)
    ensures
        out@ == spec_replace(s@, from, to),
{
    let mut out: Vec<char> = Vec::new();
    let mut i: usize = 0;
    while i < s.len()
        invariant
            i <= s.len(),
            out@ == spec_replace(s@.take(i as int), from, to),
        decreases s.len() - i,
    {
        proof {
            assert(spec_replace(s@.take(i as int + 1), from, to) == spec_replace(
                s@.take(i as int),
                from,
                to,
            ).push(
                if s@[i as int] == from {
                    to
                } else {
                    s@[i as int]
                },
            ));
        }
        if s[i] == from {
            out.push(to);
        } else {
            out.push(s[i]);
        }
        i += 1;
    }
    proof {
        assert(s@.take(s@.len() as int) == s@);
    }
    out
}

/// What each of `pieces` holds.
pub open spec fn views(pieces: Seq<Vec<char>>) -> Seq<Seq<char>> {
    pieces.map_values(|p: Vec<char>| p@)
}

/// What each of `parts` holds.
pub open spec fn string_views(parts: Seq<String>) -> Seq<Seq<char>> {
    parts.map_values(|p: String| p@)
}

/// The pieces of `s` between the occurrences of `sep`, in order. A text with
/// `n` occurrences has `n + 1` pieces, some of which may be empty.
pub open spec fn spec_split(s: Seq<char>, sep: char) -> Seq<Seq<char>>
    decreases s.len(),
{
    if s.len() == 0 {
        seq![Seq::empty()]
    } else {
        let before = spec_split(s.drop_last(), sep);
        if s.last() == sep {
            before.push(Seq::empty())
        } else {
            before.drop_last().push(before.last().push(s.last()))
        }
    }
}

/// The `pieces` one after the other, with `sep` between each two.
pub open spec fn spec_join(pieces: Seq<Seq<char>>, sep: Seq<char>) -> Seq<char>
    decreases pieces.len(),
{
    if pieces.len() == 0 {
        Seq::empty()
    } else if pieces.len() == 1 {
        pieces[0]
    } else {
        spec_join(pieces.drop_last(), sep) + sep + pieces.last()
    }
}

/// How often `c` occurs in `s`.
pub open spec fn spec_count(s: Seq<char>, c: char) -> nat
    decreases s.len(),
{
    if s.len() == 0 {
        0
    } else if s.last() == c {
        spec_count(s.drop_last(), c) + 1
    } else {
        spec_count(s.drop_last(), c)
    }
}

/// A text has one piece more than it has separators.
pub proof fn lemma_split_len(s: Seq<char>, sep: char)
    ensures
        spec_split(s, sep).len() == spec_count(s, sep) + 1,
    decreases s.len(),
{
    if s.len() > 0 {
        lemma_split_len(s.drop_last(), sep);
    }
}

/// No piece of a split holds the separator.
pub proof fn lemma_split_pieces_free(s: Seq<char>, sep: char)
    ensures
        forall|i: int|
            0 <= i < spec_split(s, sep).len() ==> !(#[trigger] spec_split(s, sep)[i]).contains(
                sep,
            ),
    decreases s.len(),
{
    if s.len() > 0 {
        lemma_split_len(s.drop_last(), sep);
        lemma_split_pieces_free(s.drop_last(), sep);
        let before = spec_split(s.drop_last(), sep);
        let pieces = spec_split(s, sep);
        assert forall|i: int| 0 <= i < pieces.len() implies !(#[trigger] pieces[i]).contains(
            sep,
        ) by {
            if i < before.len() - 1 {
                assert(pieces[i] == before[i]);
            } else if s.last() == sep {
                if i == before.len() - 1 {
                    assert(pieces[i] == before[i]);
                }
            } else {
                assert(!before[i].contains(sep));
                assert(pieces[i] == before[i].push(s.last()));
                if pieces[i].contains(sep) {
                    let k = choose|k: int| 0 <= k < pieces[i].len() && pieces[i][k] == sep;
                    assert(before[i][k] == sep);
                }
            }
        }
    }
}

/// Joining the pieces of a split with the separator gives the text back.
pub proof fn lemma_join_split(s: Seq<char>, sep: char)
    ensures
        spec_join(spec_split(s, sep), seq![sep]) == s,
    decreases s.len(),
{
    if s.len() > 0 {
        lemma_split_len(s.drop_last(), sep);
        lemma_join_split(s.drop_last(), sep);
        let before = spec_split(s.drop_last(), sep);
        let pieces = spec_split(s, sep);
        if s.last() == sep {
            assert(pieces.drop_last() == before);
            let none = Seq::<char>::empty();
            assert(spec_join(pieces, seq![sep]) == s.drop_last() + seq![sep] + none);
            assert(s.drop_last() + seq![sep] + none == s);
        } else {
            lemma_join_push_last(before, seq![sep], s.last());
            assert(s.drop_last().push(s.last()) == s);
        }
    }
}

/// A character added to the last piece is added to the joined text.
pub proof fn lemma_join_push_last(pieces: Seq<Seq<char>>, sep: Seq<char>, c: char)
    requires
        pieces.len() > 0,
    ensures
        spec_join(pieces.drop_last().push(pieces.last().push(c)), sep) == spec_join(
            pieces,
            sep,
        ).push(c),
{
    let longer = pieces.drop_last().push(pieces.last().push(c));
    if pieces.len() == 1 {
        assert(longer[0] == pieces[0].push(c));
    } else {
        assert(longer.drop_last() == pieces.drop_last());
        assert(spec_join(pieces.drop_last(), sep) + sep + pieces.last().push(c) == (spec_join(
            pieces.drop_last(),
            sep,
        ) + sep + pieces.last()).push(c));
    }
}

/// A text without the separator is its own single piece.
pub proof fn lemma_split_free(s: Seq<char>, sep: char)
    requires
        !s.contains(sep),
    ensures
        spec_split(s, sep) == seq![s],
    decreases s.len(),
{
    if s.len() == 0 {
        assert(s == Seq::<char>::empty());
    } else {
        assert(s[s.len() - 1] != sep);
        assert(!s.drop_last().contains(sep)) by {
            if s.drop_last().contains(sep) {
                let k = choose|k: int| 0 <= k < s.drop_last().len() && s.drop_last()[k] == sep;
                assert(s[k] == sep);
            }
        }
        lemma_split_free(s.drop_last(), sep);
        assert(seq![s.drop_last()].drop_last().push(seq![s.drop_last()].last().push(s.last()))
            == seq![s]) by {
            assert(s.drop_last().push(s.last()) == s);
        }
    }
}

/// After a separator, a text without one is a piece of its own.
pub proof fn lemma_split_append(head: Seq<char>, sep: char, tail: Seq<char>)
    requires
        !tail.contains(sep),
    ensures
        spec_split(head + seq![sep] + tail, sep) == spec_split(head, sep).push(tail),
    decreases tail.len(),
{
    let whole = head + seq![sep] + tail;
    if tail.len() == 0 {
        assert(whole.drop_last() == head);
        assert(tail == Seq::<char>::empty());
    } else {
        assert(tail[tail.len() - 1] != sep);
        assert(!tail.drop_last().contains(sep)) by {
            if tail.drop_last().contains(sep) {
                let k = choose|k: int|
                    0 <= k < tail.drop_last().len() && tail.drop_last()[k] == sep;
                assert(tail[k] == sep);
            }
        }
        lemma_split_append(head, sep, tail.drop_last());
        assert(whole.drop_last() == head + seq![sep] + tail.drop_last());
        assert(whole.last() == tail.last());
        let before = spec_split(head, sep).push(tail.drop_last());
        assert(before.drop_last() == spec_split(head, sep));
        assert(tail.drop_last().push(tail.last()) == tail);
    }
}

/// Splitting a joined text at the separator gives the pieces back, when
/// there is at least one piece and none holds the separator.
pub proof fn lemma_split_join(pieces: Seq<Seq<char>>, sep: char)
    requires
        pieces.len() > 0,
        forall|i: int| 0 <= i < pieces.len() ==> !(#[trigger] pieces[i]).contains(sep),
    ensures
        spec_split(spec_join(pieces, seq![sep]), sep) == pieces,
    decreases pieces.len(),
{
    if pieces.len() == 1 {
        lemma_split_free(pieces[0], sep);
        assert(seq![pieces[0]] == pieces);
    } else {
        let front = pieces.drop_last();
        assert forall|i: int| 0 <= i < front.len() implies !(#[trigger] front[i]).contains(sep) by {
            assert(front[i] == pieces[i]);
        }
        lemma_split_join(front, sep);
        lemma_split_append(spec_join(front, seq![sep]), sep, pieces.last());
        assert(front.push(pieces.last()) == pieces);
    }
}

/// The pieces of `s` between the occurrences of `sep`, in order.
pub fn split(s: &Vec<char>, sep: char) -> (pieces: Vec<Vec<char>>)
    ensures
        views(pieces@) == spec_split(s@, sep),
{
    let mut pieces: Vec<Vec<char>> = Vec::new();
    let mut piece: Vec<char> = Vec::new();
    let mut i: usize = 0;
    proof {
        assert(views(pieces@).push(piece@) == seq![Seq::<char>::empty()]);
    }
    while i < s.len()
        invariant
            i <= s.len(),
            views(pieces@).push(piece@) == spec_split(s@.take(i as int), sep),
        decreases s.len() - i,
    {
        let ghost before = views(pieces@).push(piece@);
        proof {
            assert(s@.take(i as int + 1).drop_last() == s@.take(i as int));
            assert(before.drop_last() == views(pieces@));
        }
        if s[i] == sep {
            pieces.push(piece);
            piece = Vec::new();
            proof {
                assert(views(pieces@) == before);
            }
        } else {
            piece.push(s[i]);
        }
        i += 1;
    }
    proof {
        assert(s@.take(s@.len() as int) == s@);
        assert(views(pieces@.push(piece)) == views(pieces@).push(piece@));
    }
    pieces.push(piece);
    pieces
}

/// `itertools::Itertools::join`, called on the strings of `parts` in order:
/// the result is the first string, then for each further one the separator
/// and the string; it is empty when there are no strings.
#[verifier::external_body]
pub(crate) fn join(parts: &Vec<String>, sep: &str) -> (out: String)
    ensures
        out@ == spec_join(string_views(parts@), sep@),
{
    itertools::Itertools::join(&mut parts.iter(), sep)
}

} // verus!
