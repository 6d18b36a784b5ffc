//! Steps on the way to the laws: what cleaning, cutting and reading do to
//! texts that were written from terms.

use crate::decimal::{is_literal_char, is_literal_text, lemma_decimal_chars};
use crate::decimal::{lemma_decimal_round_trip, lemma_literal_free, spec_decimal};
use crate::error::ParseFailure;
use crate::grammar::{lemma_parse_terms_ok, spec_parse, spec_parse_number, spec_parse_term};
use crate::grammar::{spec_parse_terms, spec_sanitize};
use crate::number::{term_within, terms_within, Number};
use crate::options::{plain_separators, NumberRangeOptions};
use crate::range::{pair_text, spec_format, spec_format_term, spec_format_terms};
use crate::range::{spec_values, triple_text};
use crate::text::{is_not, is_not_whitespace, lemma_split_free, lemma_split_join};
use crate::text::{spec_is_whitespace, spec_remove, spec_replace, spec_split};
use crate::text::{spec_join, spec_strip_whitespace, spec_trim, spec_trim_end, spec_trim_start};
use vstd::prelude::*;

verus! {

/// A filter keeps a text in which every character passes.
pub proof fn lemma_filter_keeps(s: Seq<char>, keep: spec_fn(char) -> bool)
    requires
        forall|i: int| 0 <= i < s.len() ==> keep(#[trigger] s[i]),
    ensures
        s.filter(keep) == s,
    decreases s.len(),
{
    reveal(Seq::filter);
    if s.len() > 0 {
        lemma_filter_keeps(s.drop_last(), keep);
        assert(s.drop_last().push(s.last()) == s);
    }
}

/// A filter keeps the first character of a text, if that one passes.
pub proof fn lemma_filter_keeps_first(s: Seq<char>, keep: spec_fn(char) -> bool)
    requires
        s.len() > 0,
        keep(s[0]),
    ensures
        s.filter(keep).len() > 0,
        s.filter(keep)[0] == s[0],
    decreases s.len(),
{
    reveal(Seq::filter);
    if s.len() > 1 {
        lemma_filter_keeps_first(s.drop_last(), keep);
    } else {
        assert(s.drop_last().filter(keep) == Seq::<char>::empty());
    }
}

/// Cleaning leaves a literal as it is.
pub proof fn lemma_sanitize_literal(s: Seq<char>, options: NumberRangeOptions<int>)
    requires
        is_literal_text(s),
        !is_literal_char(options.group_sep),
        !is_literal_char(options.decimal_sep),
    ensures
        spec_sanitize(s, options) == s,
{
    assert(spec_trim(s) == s) by {
        if s.len() > 0 {
            assert(is_literal_char(s[0]));
            assert(is_literal_char(s[s.len() - 1]));
        }
    }
    assert(spec_remove(s, options.group_sep) == s) by {
        assert forall|i: int| 0 <= i < s.len() implies is_not(options.group_sep)(
            #[trigger] s[i],
        ) by {
            assert(is_literal_char(s[i]));
        }
        lemma_filter_keeps(s, is_not(options.group_sep));
    }
    assert(spec_strip_whitespace(s) == s) by {
        assert forall|i: int| 0 <= i < s.len() implies is_not_whitespace()(#[trigger] s[i]) by {
            assert(is_literal_char(s[i]));
        }
        lemma_filter_keeps(s, is_not_whitespace());
    }
    assert(spec_replace(s, options.decimal_sep, '.') == s) by {
        assert forall|i: int| 0 <= i < s.len() implies spec_replace(s, options.decimal_sep, '.')[i]
            == s[i] by {
            assert(is_literal_char(s[i]));
        }
    }
}

/// Cleaning leaves something of a text that starts with a character of a
/// literal.
pub proof fn lemma_sanitize_keeps_first(s: Seq<char>, options: NumberRangeOptions<int>)
    requires
        s.len() > 0,
        is_literal_char(s[0]),
        !is_literal_char(options.group_sep),
    ensures
        spec_sanitize(s, options).len() > 0,
{
    let started = spec_trim_start(s);
    assert(started == s);
    lemma_trim_end_keeps_first(s);
    let trimmed = spec_trim(s);
    lemma_filter_keeps_first(trimmed, is_not(options.group_sep));
    let degrouped = spec_remove(trimmed, options.group_sep);
    lemma_filter_keeps_first(degrouped, is_not_whitespace());
}

/// Trimming the end leaves the first character of a text, if that one is no
/// whitespace.
pub proof fn lemma_trim_end_keeps_first(s: Seq<char>)
    requires
        s.len() > 0,
        !spec_is_whitespace(s[0]),
    ensures
        spec_trim_end(s).len() > 0,
        spec_trim_end(s)[0] == s[0],
    decreases s.len(),
{
    if spec_is_whitespace(s.last()) {
        lemma_trim_end_keeps_first(s.drop_last());
    }
}

/// Two texts around a separator hold a character only if one of them
/// does, or the separator is that character.
pub proof fn lemma_glue_free(a: Seq<char>, sep: char, b: Seq<char>, c: char)
    requires
        !a.contains(c),
        !b.contains(c),
        sep != c,
    ensures
        !(a + seq![sep] + b).contains(c),
{
    let glued = a + seq![sep] + b;
    if glued.contains(c) {
        let k = choose|k: int| 0 <= k < glued.len() && glued[k] == c;
        if k < a.len() {
            assert(a[k] == c);
        } else if k > a.len() {
            assert(b[k - a.len() - 1] == c);
        }
    }
}

/// The literal of a number is read back as that number, whatever default
/// stands by.
pub proof fn lemma_number_round_trip(
    v: int,
    def: Option<int>,
    options: NumberRangeOptions<int>,
    lower: int,
    upper: int,
)
    requires
        lower <= v <= upper,
        !is_literal_char(options.group_sep),
        !is_literal_char(options.decimal_sep),
    ensures
        spec_parse_number(spec_decimal(v), def, options, lower, upper) == Ok::<int, ParseFailure>(
            v,
        ),
{
    lemma_decimal_chars(v);
    lemma_sanitize_literal(spec_decimal(v), options);
    lemma_decimal_round_trip(v, lower, upper);
}

/// Cutting two literals around a separator gives the two literals.
pub proof fn lemma_pair_split(start: int, end: int, sep: char)
    requires
        !is_literal_char(sep),
    ensures
        spec_split(pair_text(start, end, sep), sep) == seq![spec_decimal(start), spec_decimal(end)],
{
    let pieces = seq![spec_decimal(start), spec_decimal(end)];
    let first = seq![spec_decimal(start)];
    lemma_literal_free(start, sep);
    lemma_literal_free(end, sep);
    assert(spec_join(first, seq![sep]) == spec_decimal(start));
    assert(pieces.drop_last() == first);
    assert(spec_join(pieces, seq![sep]) == pair_text(start, end, sep));
    lemma_split_join(pieces, sep);
}

/// Cutting three literals with a separator between each two gives the
/// three literals.
pub proof fn lemma_triple_split(start: int, step: int, end: int, sep: char)
    requires
        !is_literal_char(sep),
    ensures
        spec_split(triple_text(start, step, end, sep), sep) == seq![
            spec_decimal(start),
            spec_decimal(step),
            spec_decimal(end),
        ],
{
    let pieces = seq![spec_decimal(start), spec_decimal(step), spec_decimal(end)];
    let two = seq![spec_decimal(start), spec_decimal(step)];
    let first = seq![spec_decimal(start)];
    lemma_literal_free(start, sep);
    lemma_literal_free(step, sep);
    lemma_literal_free(end, sep);
    assert(spec_join(first, seq![sep]) == spec_decimal(start));
    assert(two.drop_last() == first);
    assert(spec_join(two, seq![sep]) == spec_decimal(start) + seq![sep] + spec_decimal(step));
    assert(pieces.drop_last() == two);
    assert(spec_join(pieces, seq![sep]) == triple_text(start, step, end, sep));
    lemma_split_join(pieces, sep);
}

/// A literal alone is read as a single value.
pub proof fn lemma_parse_literal(v: int, options: NumberRangeOptions<int>, lower: int, upper: int)
    requires
        lower <= v <= upper,
        !is_literal_char(options.range_sep),
        !is_literal_char(options.group_sep),
        !is_literal_char(options.decimal_sep),
    ensures
        spec_parse_term(spec_decimal(v), options, lower, upper) == Ok::<Number<int>, ParseFailure>(
            Number::Single(v),
        ),
{
    lemma_literal_free(v, options.range_sep);
    lemma_split_free(spec_decimal(v), options.range_sep);
    lemma_number_round_trip(v, None, options, lower, upper);
}

/// Two literals around the range separator are read as a range in steps
/// of 1.
pub proof fn lemma_parse_pair(
    start: int,
    end: int,
    options: NumberRangeOptions<int>,
    lower: int,
    upper: int,
)
    requires
        lower <= start <= upper,
        lower <= end <= upper,
        !is_literal_char(options.range_sep),
        !is_literal_char(options.group_sep),
        !is_literal_char(options.decimal_sep),
    ensures
        spec_parse_term(pair_text(start, end, options.range_sep), options, lower, upper) == Ok::<
            Number<int>,
            ParseFailure,
        >(Number::Range(start, 1, end)),
{
    lemma_pair_split(start, end, options.range_sep);
    lemma_number_round_trip(start, options.default_start, options, lower, upper);
    lemma_number_round_trip(end, options.default_end, options, lower, upper);
}

/// Three literals with the range separator between each two are read as a
/// range from the first by the second to the third.
pub proof fn lemma_parse_triple(
    start: int,
    step: int,
    end: int,
    options: NumberRangeOptions<int>,
    lower: int,
    upper: int,
)
    requires
        lower <= start <= upper,
        lower <= step <= upper,
        lower <= end <= upper,
        !is_literal_char(options.range_sep),
        !is_literal_char(options.group_sep),
        !is_literal_char(options.decimal_sep),
    ensures
        spec_parse_term(triple_text(start, step, end, options.range_sep), options, lower, upper)
            == Ok::<Number<int>, ParseFailure>(Number::Range(start, step, end)),
{
    lemma_triple_split(start, step, end, options.range_sep);
    lemma_number_round_trip(start, options.default_start, options, lower, upper);
    lemma_number_round_trip(step, Some(1), options, lower, upper);
    lemma_number_round_trip(end, options.default_end, options, lower, upper);
}

/// A written term is read back as that term.
pub proof fn lemma_term_round_trip(
    term: Number<int>,
    options: NumberRangeOptions<int>,
    lower: int,
    upper: int,
)
    requires
        term_within(term, lower, upper),
        !is_literal_char(options.range_sep),
        !is_literal_char(options.group_sep),
        !is_literal_char(options.decimal_sep),
    ensures
        spec_parse_term(spec_format_term(term, options.range_sep), options, lower, upper) == Ok::<
            Number<int>,
            ParseFailure,
        >(term),
{
    match term {
        Number::Single(v) => {
            lemma_parse_literal(v, options, lower, upper);
        },
        Number::Range(start, step, end) => {
            if step == 1 {
                lemma_parse_pair(start, end, options, lower, upper);
            } else {
                lemma_parse_triple(start, step, end, options, lower, upper);
            }
        },
    }
}

/// Written terms are read back as those terms, one by one.
pub proof fn lemma_terms_round_trip(
    terms: Seq<Number<int>>,
    options: NumberRangeOptions<int>,
    lower: int,
    upper: int,
)
    requires
        terms_within(terms, lower, upper),
        !is_literal_char(options.range_sep),
        !is_literal_char(options.group_sep),
        !is_literal_char(options.decimal_sep),
    ensures
        spec_parse_terms(spec_format_terms(terms, options.range_sep), options, lower, upper)
            == Ok::<Seq<Number<int>>, ParseFailure>(terms),
    decreases terms.len(),
{
    let texts = spec_format_terms(terms, options.range_sep);
    if terms.len() == 0 {
        assert(terms == Seq::<Number<int>>::empty());
    } else {
        let front = terms.drop_last();
        assert(terms_within(front, lower, upper)) by {
            assert forall|i: int| 0 <= i < front.len() implies term_within(
                #[trigger] front[i],
                lower,
                upper,
            ) by {
                assert(front[i] == terms[i]);
            }
        }
        lemma_terms_round_trip(front, options, lower, upper);
        assert(texts.drop_last() == spec_format_terms(front, options.range_sep));
        assert(term_within(terms[terms.len() - 1], lower, upper));
        lemma_term_round_trip(terms.last(), options, lower, upper);
        assert(front.push(terms.last()) == terms);
    }
}

/// Two literals around a separator start with a character of a literal and
/// hold no other character that cannot stand in a literal.
pub proof fn lemma_pair_shape(start: int, end: int, sep: char, other: char)
    requires
        !is_literal_char(other),
        other != sep,
    ensures
        pair_text(start, end, sep).len() > 0,
        is_literal_char(pair_text(start, end, sep)[0]),
        !pair_text(start, end, sep).contains(other),
{
    lemma_literal_free(start, other);
    lemma_literal_free(end, other);
    lemma_glue_free(spec_decimal(start), sep, spec_decimal(end), other);
    assert(pair_text(start, end, sep)[0] == spec_decimal(start)[0]);
}

/// Three literals with a separator between each two start with a character
/// of a literal and hold no other character that cannot stand in a literal.
pub proof fn lemma_triple_shape(start: int, step: int, end: int, sep: char, other: char)
    requires
        !is_literal_char(other),
        other != sep,
    ensures
        triple_text(start, step, end, sep).len() > 0,
        is_literal_char(triple_text(start, step, end, sep)[0]),
        !triple_text(start, step, end, sep).contains(other),
{
    lemma_literal_free(start, other);
    lemma_literal_free(step, other);
    lemma_literal_free(end, other);
    lemma_glue_free(spec_decimal(start), sep, spec_decimal(step), other);
    lemma_glue_free(pair_text(start, step, sep), sep, spec_decimal(end), other);
    assert(triple_text(start, step, end, sep)[0] == spec_decimal(start)[0]);
}

/// A written term starts with a character of a literal and does not hold
/// the list separator.
pub proof fn lemma_term_shape(term: Number<int>, list_sep: char, range_sep: char)
    requires
        !is_literal_char(list_sep),
        list_sep != range_sep,
    ensures
        spec_format_term(term, range_sep).len() > 0,
        is_literal_char(spec_format_term(term, range_sep)[0]),
        !spec_format_term(term, range_sep).contains(list_sep),
{
    match term {
        Number::Single(v) => {
            lemma_literal_free(v, list_sep);
        },
        Number::Range(start, step, end) => {
            lemma_pair_shape(start, end, range_sep, list_sep);
            lemma_triple_shape(start, step, end, range_sep, list_sep);
        },
    }
}

/// The text of a list with a first term starts with a character of a
/// literal, and no written term holds the list separator.
pub proof fn lemma_format_shape(terms: Seq<Number<int>>, list_sep: char, range_sep: char)
    requires
        terms.len() > 0,
        !is_literal_char(list_sep),
        list_sep != range_sep,
    ensures
        spec_format(terms, list_sep, range_sep).len() > 0,
        is_literal_char(spec_format(terms, list_sep, range_sep)[0]),
        forall|i: int|
            0 <= i < terms.len() ==> !(#[trigger] spec_format_terms(terms, range_sep)[i]).contains(
                list_sep,
            ),
    decreases terms.len(),
{
    let texts = spec_format_terms(terms, range_sep);
    assert forall|i: int| 0 <= i < terms.len() implies !(#[trigger] texts[i]).contains(
        list_sep,
    ) by {
        lemma_term_shape(terms[i], list_sep, range_sep);
    }
    lemma_term_shape(terms[0], list_sep, range_sep);
    if terms.len() > 1 {
        let front = terms.drop_last();
        lemma_format_shape(front, list_sep, range_sep);
        assert(texts.drop_last() == spec_format_terms(front, range_sep));
    }
}

/// A text of one term. Where a text does not hold the list separator and
/// is not empty once cleaned, it is read as the one term that it writes.
pub proof fn lemma_parse_one_term(
    text: Seq<char>,
    options: NumberRangeOptions<int>,
    lower: int,
    upper: int,
)
    requires
        !text.contains(options.list_sep),
        spec_sanitize(text, options).len() > 0,
    ensures
        spec_parse(text, options, lower, upper) == match spec_parse_term(
            text,
            options,
            lower,
            upper,
        ) {
            Ok(term) => Ok::<Seq<Number<int>>, ParseFailure>(seq![term]),
            Err(e) => Err(e),
        },
{
    lemma_split_free(text, options.list_sep);
    let pieces = seq![text];
    assert(pieces.drop_last() == Seq::<Seq<char>>::empty());
    assert(spec_parse_terms(pieces.drop_last(), options, lower, upper) == Ok::<
        Seq<Number<int>>,
        ParseFailure,
    >(Seq::empty()));
    match spec_parse_term(text, options, lower, upper) {
        Ok(term) => {
            assert(Seq::<Number<int>>::empty().push(term) == seq![term]);
        },
        Err(e) => {},
    }
}

/// The values of a single term are the values of the list that holds it
/// alone.
pub proof fn lemma_values_of_one(term: Number<int>)
    ensures
        spec_values(seq![term]) == term.values(),
{
    let none = seq![term].drop_first();
    assert(none.len() == 0);
    assert(spec_values(none) == Seq::<int>::empty());
    assert(term.values() + Seq::<int>::empty() == term.values());
}

/// Reading what was written. Terms whose numbers the number type holds,
/// written with separators that cannot stand in a literal, are read back as
/// the same terms.
pub proof fn lemma_format_parse(
    terms: Seq<Number<int>>,
    options: NumberRangeOptions<int>,
    lower: int,
    upper: int,
)
    requires
        terms_within(terms, lower, upper),
        plain_separators(options),
    ensures
        spec_parse(
            spec_format(terms, options.list_sep, options.range_sep),
            options,
            lower,
            upper,
        ) == Ok::<Seq<Number<int>>, ParseFailure>(terms),
{
    let text = spec_format(terms, options.list_sep, options.range_sep);
    let texts = spec_format_terms(terms, options.range_sep);
    if terms.len() == 0 {
        assert(text == Seq::<char>::empty());
        lemma_sanitize_literal(text, options);
        assert(terms == Seq::<Number<int>>::empty());
    } else {
        lemma_format_shape(terms, options.list_sep, options.range_sep);
        lemma_sanitize_keeps_first(text, options);
        lemma_split_join(texts, options.list_sep);
        lemma_terms_round_trip(terms, options, lower, upper);
    }
}

/// The numbers of a term that was read lie in the number type, if the
/// defaults do and the type holds 1.
pub proof fn lemma_parsed_term_within(
    term: Seq<char>,
    options: NumberRangeOptions<int>,
    lower: int,
    upper: int,
)
    requires
        lower <= 1 <= upper,
        options.default_start matches Some(v) ==> lower <= v <= upper,
        options.default_end matches Some(v) ==> lower <= v <= upper,
    ensures
        spec_parse_term(term, options, lower, upper) matches Ok(t) ==> term_within(t, lower, upper),
{
}

/// The numbers of the terms that were read lie in the number type, if the
/// defaults do and the type holds 1.
pub proof fn lemma_parsed_within(
    text: Seq<char>,
    options: NumberRangeOptions<int>,
    lower: int,
    upper: int,
)
    requires
        lower <= 1 <= upper,
        options.default_start matches Some(v) ==> lower <= v <= upper,
        options.default_end matches Some(v) ==> lower <= v <= upper,
    ensures
        spec_parse(text, options, lower, upper) matches Ok(terms) ==> terms_within(
            terms,
            lower,
            upper,
        ),
{
    if let Ok(terms) = spec_parse(text, options, lower, upper) {
        if spec_sanitize(text, options).len() > 0 {
            let pieces = spec_split(text, options.list_sep);
            lemma_parse_terms_ok(pieces, options, lower, upper);
            assert forall|i: int| 0 <= i < terms.len() implies term_within(
                #[trigger] terms[i],
                lower,
                upper,
            ) by {
                lemma_parsed_term_within(pieces[i], options, lower, upper);
            }
        }
    }
}

} // verus!
