//! What holds between reading, pulling and writing.

use crate::decimal::{lemma_literal_free, spec_decimal, spec_parse_int};
use crate::error::ParseFailure;
use crate::grammar::{lemma_parse_terms_ok, spec_parse, spec_parse_term, spec_parse_terms};
use crate::grammar::spec_sanitize;
use crate::lemmas::{lemma_format_parse, lemma_pair_shape, lemma_parse_literal};
use crate::lemmas::{lemma_parse_one_term, lemma_parse_pair, lemma_parse_triple};
use crate::lemmas::{lemma_parsed_within, lemma_sanitize_keeps_first, lemma_triple_shape};
use crate::lemmas::{lemma_number_round_trip, lemma_values_of_one};
use crate::number::{lemma_range_bounds, lemma_range_ends, range_len, range_valid, range_values};
use crate::number::Number;
use crate::numeric::Numeric;
use crate::options::{default_options, plain_separators, NumberRangeOptions};
use crate::range::{lemma_next_values, pair_text, spec_format, spec_next, spec_values};
use crate::range::triple_text;
use crate::text::{lemma_join_split, lemma_split_append, lemma_split_free, lemma_split_len};
use crate::text::{lemma_split_pieces_free, spec_count, spec_join, spec_remove, spec_replace};
use crate::text::{spec_split, spec_strip_whitespace, spec_trim};
use vstd::arithmetic::div_mod::lemma_div_basics;
use vstd::prelude::*;

verus! {

/// A single number. A text that holds neither the list separator nor the
/// range separator and that, once cleaned, is the literal of `n`, is read as
/// the single value `n`, and pulling hands out `n` and nothing else.
pub proof fn law_single_term<T: Numeric>(text: Seq<char>, n: int, options: NumberRangeOptions<int>)
    requires
        !text.contains(options.list_sep),
        !text.contains(options.range_sep),
        spec_parse_int(spec_sanitize(text, options), T::lower(), T::upper()) == Some(n),
    ensures
        spec_parse(text, options, T::lower(), T::upper()) == Ok::<Seq<Number<int>>, ParseFailure>(
            seq![Number::Single(n)],
        ),
        spec_values(seq![Number::Single(n)]) == seq![n],
{
    lemma_split_free(text, options.range_sep);
    lemma_parse_one_term(text, options, T::lower(), T::upper());
    lemma_values_of_one(Number::Single(n));
}

/// The literal of a number. Every number that the type holds is read from
/// its own literal, as a single value.
pub proof fn law_single_literal<T: Numeric>(n: int, options: NumberRangeOptions<int>)
    requires
        T::lower() <= n <= T::upper(),
        plain_separators(options),
    ensures
        spec_parse(spec_decimal(n), options, T::lower(), T::upper()) == Ok::<
            Seq<Number<int>>,
            ParseFailure,
        >(seq![Number::Single(n)]),
        spec_values(seq![Number::Single(n)]) == seq![n],
{
    let text = spec_decimal(n);
    lemma_literal_free(n, options.list_sep);
    lemma_sanitize_keeps_first(text, options);
    lemma_parse_one_term(text, options, T::lower(), T::upper());
    lemma_parse_literal(n, options, T::lower(), T::upper());
    lemma_values_of_one(Number::Single(n));
}

/// A range without a step. The literals of `start` and `end` around the
/// range separator are read as the range from `start` to `end` in steps of
/// 1. Its values are `start`, `start + 1` and so on up to `end`; there are
/// none where `start` lies above `end`.
pub proof fn law_range<T: Numeric>(start: int, end: int, options: NumberRangeOptions<int>)
    requires
        T::lower() <= start <= T::upper(),
        T::lower() <= end <= T::upper(),
        plain_separators(options),
    ensures
        spec_parse(pair_text(start, end, options.range_sep), options, T::lower(), T::upper())
            == Ok::<Seq<Number<int>>, ParseFailure>(seq![Number::Range(start, 1, end)]),
        start <= end ==> spec_values(seq![Number::Range(start, 1, end)]) == Seq::new(
            (end - start + 1) as nat,
            |k: int| start + k,
        ),
        start > end ==> spec_values(seq![Number::Range(start, 1, end)]) == Seq::<int>::empty(),
{
    let text = pair_text(start, end, options.range_sep);
    lemma_pair_shape(start, end, options.range_sep, options.list_sep);
    lemma_sanitize_keeps_first(text, options);
    lemma_parse_one_term(text, options, T::lower(), T::upper());
    lemma_parse_pair(start, end, options, T::lower(), T::upper());
    lemma_values_of_one(Number::Range(start, 1, end));
    if start <= end {
        lemma_div_basics(end - start);
        assert(range_values(start, 1, end) == Seq::new(
            (end - start + 1) as nat,
            |k: int| start + k,
        ));
    }
}

/// A range downwards. The literals of `start`, -1 and `end` are read as
/// the range from `start` down to `end`, whose values are `start`,
/// `start - 1` and so on down to `end`.
pub proof fn law_descending_range<T: Numeric>(
    start: int,
    end: int,
    options: NumberRangeOptions<int>,
)
    requires
        T::lower() <= end <= start <= T::upper(),
        T::lower() <= -1,
        plain_separators(options),
    ensures
        spec_parse(
            triple_text(start, -1, end, options.range_sep),
            options,
            T::lower(),
            T::upper(),
        ) == Ok::<Seq<Number<int>>, ParseFailure>(seq![Number::Range(start, -1, end)]),
        spec_values(seq![Number::Range(start, -1, end)]) == Seq::new(
            (start - end + 1) as nat,
            |k: int| start - k,
        ),
{
    T::lemma_limits();
    law_stepped_range::<T>(start, -1, end, options);
    lemma_div_basics(start - end);
    assert(range_values(start, -1, end) == Seq::new(
        (start - end + 1) as nat,
        |k: int| start - k,
    ));
}

/// A range with a step. The literals of `start`, `step` and `end` with the
/// range separator between each two are read as the range from `start` by
/// `step` to `end`. Its values are `start`, `start + step`,
/// `start + 2 * step` and so on: all those that do not pass `end`, so the
/// value after the last one would. A range that does not move towards its
/// end has no values.
pub proof fn law_stepped_range<T: Numeric>(
    start: int,
    step: int,
    end: int,
    options: NumberRangeOptions<int>,
)
    requires
        T::lower() <= start <= T::upper(),
        T::lower() <= step <= T::upper(),
        T::lower() <= end <= T::upper(),
        plain_separators(options),
    ensures
        spec_parse(
            triple_text(start, step, end, options.range_sep),
            options,
            T::lower(),
            T::upper(),
        ) == Ok::<Seq<Number<int>>, ParseFailure>(seq![Number::Range(start, step, end)]),
        spec_values(seq![Number::Range(start, step, end)]) == range_values(start, step, end),
        forall|k: int|
            0 <= k < range_len(start, step, end) ==> {
                &&& (#[trigger] range_values(start, step, end)[k]) == start + k * step
                &&& step > 0 ==> start <= range_values(start, step, end)[k] <= end
                &&& step < 0 ==> end <= range_values(start, step, end)[k] <= start
            },
        range_valid(start, step, end) && step > 0 ==> start + range_len(start, step, end) * step
            > end,
        range_valid(start, step, end) && step < 0 ==> start + range_len(start, step, end) * step
            < end,
        !range_valid(start, step, end) ==> range_values(start, step, end) == Seq::<int>::empty(),
{
    let text = triple_text(start, step, end, options.range_sep);
    lemma_triple_shape(start, step, end, options.range_sep, options.list_sep);
    lemma_sanitize_keeps_first(text, options);
    lemma_parse_one_term(text, options, T::lower(), T::upper());
    lemma_parse_triple(start, step, end, options, T::lower(), T::upper());
    lemma_values_of_one(Number::Range(start, step, end));
    assert forall|k: int| 0 <= k < range_len(start, step, end) implies {
        &&& (#[trigger] range_values(start, step, end)[k]) == start + k * step
        &&& step > 0 ==> start <= range_values(start, step, end)[k] <= end
        &&& step < 0 ==> end <= range_values(start, step, end)[k] <= start
    } by {
        lemma_range_bounds(start, step, end, k);
    }
    if range_valid(start, step, end) {
        lemma_range_ends(start, step, end);
    }
}

/// Round trip. Terms that were read with separators that cannot stand in a
/// literal are, once written with the same options, read back as the same
/// terms, and so hand out the same values. The defaults must be values of
/// the number type.
pub proof fn law_round_trip<T: Numeric>(text: Seq<char>, options: NumberRangeOptions<int>)
    requires
        plain_separators(options),
        options.default_start matches Some(v) ==> T::lower() <= v <= T::upper(),
        options.default_end matches Some(v) ==> T::lower() <= v <= T::upper(),
    ensures
        spec_parse(text, options, T::lower(), T::upper()) matches Ok(terms) ==> spec_parse(
            spec_format(terms, options.list_sep, options.range_sep),
            options,
            T::lower(),
            T::upper(),
        ) == Ok::<Seq<Number<int>>, ParseFailure>(terms),
{
    T::lemma_limits();
    if let Ok(terms) = spec_parse(text, options, T::lower(), T::upper()) {
        lemma_parsed_within(text, options, T::lower(), T::upper());
        lemma_format_parse(terms, options, T::lower(), T::upper());
    }
}

/// Round trip with the default options. What was read from a text is read
/// again from what is written of it, and the values to come are the same.
pub proof fn law_default_round_trip<T: Numeric>(text: Seq<char>)
    ensures
        spec_parse(text, default_options::<int>(), T::lower(), T::upper()) matches Ok(terms) ==> {
            &&& spec_parse(
                spec_format(terms, ',', ':'),
                default_options::<int>(),
                T::lower(),
                T::upper(),
            ) matches Ok(again)
            &&& again == terms
            &&& spec_values(again) == spec_values(terms)
        },
{
    law_round_trip::<T>(text, default_options::<int>());
}

/// Pull by pull. A pull hands out the first of the values that are left and
/// leaves the others to come; it hands out nothing exactly when no value is
/// left.
pub proof fn law_pull(terms: Seq<Number<int>>)
    ensures
        match spec_next(terms).0 {
            Some(v) => spec_values(terms) == seq![v] + spec_values(spec_next(terms).1),
            None => spec_values(terms) == Seq::<int>::empty(),
        },
{
    lemma_next_values(terms);
    if spec_next(terms).0 is None {
        assert(spec_values(terms) == Seq::<int>::empty());
    }
}

/// Term after term. The values of a list of terms are the values of its
/// first part, then those of the rest.
pub proof fn law_values_in_term_order(first: Seq<Number<int>>, rest: Seq<Number<int>>)
    ensures
        spec_values(first + rest) == spec_values(first) + spec_values(rest),
    decreases first.len(),
{
    if first.len() == 0 {
        assert(first + rest == rest);
        assert(Seq::<int>::empty() + spec_values(rest) == spec_values(rest));
    } else {
        law_values_in_term_order(first.drop_first(), rest);
        assert((first + rest).drop_first() == first.drop_first() + rest);
        assert((first + rest).first() == first.first());
        let head = first.first().values();
        let tail = spec_values(first.drop_first());
        assert(spec_values(first + rest) == head + (tail + spec_values(rest)));
        assert(head + (tail + spec_values(rest)) == (head + tail) + spec_values(rest));
    }
}

/// The end stays the end. Once a pull has handed out nothing, no term is
/// left, and every further pull hands out nothing and leaves no term.
pub proof fn law_end_is_final(terms: Seq<Number<int>>)
    requires
        spec_next(terms).0 is None,
    ensures
        spec_next(terms).1 == Seq::<Number<int>>::empty(),
        spec_next(spec_next(terms).1) == (None::<int>, Seq::<Number<int>>::empty()),
{
    lemma_next_values(terms);
    assert(spec_next(terms).1 == Seq::<Number<int>>::empty());
}

/// Cutting and joining. The pieces of a text hold no separator, there is
/// one more of them than there are separators in the text, and joined by
/// the separator they give the text back.
pub proof fn law_split(s: Seq<char>, sep: char)
    ensures
        spec_split(s, sep).len() == spec_count(s, sep) + 1,
        forall|i: int|
            0 <= i < spec_split(s, sep).len() ==> !(#[trigger] spec_split(s, sep)[i]).contains(
                sep,
            ),
        spec_join(spec_split(s, sep), seq![sep]) == s,
{
    lemma_split_len(s, sep);
    lemma_split_pieces_free(s, sep);
    lemma_join_split(s, sep);
}

/// The empty text. Whatever the options, it is read as no terms, and no
/// terms hand out no values.
pub proof fn law_empty_text(options: NumberRangeOptions<int>, lower: int, upper: int)
    ensures
        spec_parse(Seq::<char>::empty(), options, lower, upper) == Ok::<
            Seq<Number<int>>,
            ParseFailure,
        >(Seq::empty()),
        spec_values(Seq::<Number<int>>::empty()) == Seq::<int>::empty(),
{
    let none = Seq::<char>::empty();
    assert(spec_trim(none) == none);
    assert(spec_remove(none, options.group_sep) == none);
    assert(spec_strip_whitespace(none) == none);
    assert(spec_replace(none, options.decimal_sep, '.') == none);
}

/// Defaults. In a range without a step, a start that is left out stands
/// for the default start and an end that is left out for the default end,
/// where the options hold one; a range separator alone is the range from
/// the one default to the other.
pub proof fn law_default_bounds<T: Numeric>(start: int, end: int, options: NumberRangeOptions<int>)
    requires
        T::lower() <= start <= T::upper(),
        T::lower() <= end <= T::upper(),
        plain_separators(options),
    ensures
        options.default_start matches Some(first) ==> spec_parse_term(
            seq![options.range_sep] + spec_decimal(end),
            options,
            T::lower(),
            T::upper(),
        ) == Ok::<Number<int>, ParseFailure>(Number::Range(first, 1, end)),
        options.default_end matches Some(last) ==> spec_parse_term(
            spec_decimal(start) + seq![options.range_sep],
            options,
            T::lower(),
            T::upper(),
        ) == Ok::<Number<int>, ParseFailure>(Number::Range(start, 1, last)),
        options.default_start matches Some(first) ==> (options.default_end matches Some(last)
            ==> spec_parse_term(seq![options.range_sep], options, T::lower(), T::upper()) == Ok::<
            Number<int>,
            ParseFailure,
        >(Number::Range(first, 1, last))),
{
    let sep = options.range_sep;
    let none = Seq::<char>::empty();
    law_empty_text(options, T::lower(), T::upper());
    assert(spec_sanitize(none, options) == none);
    assert(spec_split(none, sep) == seq![none]);
    lemma_literal_free(start, sep);
    lemma_literal_free(end, sep);
    lemma_split_free(spec_decimal(start), sep);
    lemma_number_round_trip(start, options.default_start, options, T::lower(), T::upper());
    lemma_number_round_trip(end, options.default_end, options, T::lower(), T::upper());
    assert(spec_split(seq![sep] + spec_decimal(end), sep) == seq![none, spec_decimal(end)]) by {
        lemma_split_append(none, sep, spec_decimal(end));
        assert(none + seq![sep] + spec_decimal(end) == seq![sep] + spec_decimal(end));
    }
    assert(spec_split(spec_decimal(start) + seq![sep], sep) == seq![spec_decimal(start), none])
        by {
        lemma_split_append(spec_decimal(start), sep, none);
        assert(spec_decimal(start) + seq![sep] + none == spec_decimal(start) + seq![sep]);
    }
    assert(spec_split(seq![sep], sep) == seq![none, none]) by {
        lemma_split_append(none, sep, none);
        assert(none + seq![sep] + none == seq![sep]);
    }
}

/// The first failure. Reading a list fails with the failure of the first
/// piece that fails, whatever comes after it.
pub proof fn law_first_failure(
    pieces: Seq<Seq<char>>,
    options: NumberRangeOptions<int>,
    lower: int,
    upper: int,
    k: int,
)
    requires
        0 <= k < pieces.len(),
        spec_parse_term(pieces[k], options, lower, upper) is Err,
        forall|i: int|
            0 <= i < k ==> (#[trigger] spec_parse_term(pieces[i], options, lower, upper)) is Ok,
    ensures
        spec_parse_terms(pieces, options, lower, upper) == Err::<Seq<Number<int>>, ParseFailure>(
            spec_parse_term(pieces[k], options, lower, upper)->Err_0,
        ),
    decreases pieces.len(),
{
    let front = pieces.drop_last();
    if k == pieces.len() - 1 {
        lemma_parse_terms_ok(front, options, lower, upper);
        assert forall|i: int| 0 <= i < front.len() implies (#[trigger] spec_parse_term(
            front[i],
            options,
            lower,
            upper,
        )) is Ok by {
            assert(front[i] == pieces[i]);
        }
    } else {
        assert(front[k] == pieces[k]);
        assert forall|i: int| 0 <= i < k implies (#[trigger] spec_parse_term(
            front[i],
            options,
            lower,
            upper,
        )) is Ok by {
            assert(front[i] == pieces[i]);
        }
        law_first_failure(front, options, lower, upper, k);
    }
}

/// Too many separators. A term that holds the range separator three times
/// or more is not read, whatever else it holds.
pub proof fn law_too_many_separators(
    term: Seq<char>,
    options: NumberRangeOptions<int>,
    lower: int,
    upper: int,
)
    requires
        spec_count(term, options.range_sep) >= 3,
    ensures
        spec_parse_term(term, options, lower, upper) == Err::<Number<int>, ParseFailure>(
            ParseFailure::too_many_separators(options.range_sep, term),
        ),
{
    lemma_split_len(term, options.range_sep);
}

} // verus!
