//! The notation: lists of terms, terms of numbers.
//!
//! ```text
//! list   := term (LIST_SEP term)*
//! term   := number | number? RANGE_SEP number? | number? RANGE_SEP number? RANGE_SEP number?
//! number := a decimal literal, once cleaned
//! ```

use crate::decimal::{parse_int, spec_parse_int};
use crate::error::{NumberRangeParseError, ParseFailure};
use crate::number::Number;
use crate::numeric::{one, option_as_int, Numeric};
use crate::options::NumberRangeOptions;
use crate::text::{remove, replace, split, strip_whitespace, to_chars, trim, views};
use crate::text::{spec_remove, spec_replace, spec_split, spec_strip_whitespace, spec_trim};
use std::collections::VecDeque;
use vstd::prelude::*;

verus! {

/// What each of `numbers` stands for.
pub open spec fn term_views<T: Numeric>(numbers: Seq<Number<T>>) -> Seq<Number<int>> {
    numbers.map_values(|n: Number<T>| n@)
}

/// What the outcome of reading a number stands for.
pub open spec fn number_outcome<T: Numeric>(r: Result<T, NumberRangeParseError>) -> Result<
    int,
    ParseFailure,
> {
    match r {
        Ok(v) => Ok(v.as_int()),
        Err(e) => Err(e@),
    }
}

/// What the outcome of reading a term stands for.
pub open spec fn term_outcome<T: Numeric>(r: Result<Number<T>, NumberRangeParseError>) -> Result<
    Number<int>,
    ParseFailure,
> {
    match r {
        Ok(t) => Ok(t@),
        Err(e) => Err(e@),
    }
}

/// What the outcome of reading a list stands for.
pub open spec fn list_outcome<T: Numeric>(
    r: Result<VecDeque<Number<T>>, NumberRangeParseError>,
) -> Result<Seq<Number<int>>, ParseFailure> {
    match r {
        Ok(ts) => Ok(term_views(ts@)),
        Err(e) => Err(e@),
    }
}

/// A number as it is handed to the reader of literals: without the
/// whitespace around it, then without group separators, then, if the
/// options say so, without any whitespace, and at last with `.` for each
/// decimal separator.
pub open spec fn spec_sanitize(num: Seq<char>, options: NumberRangeOptions<int>) -> Seq<char> {
    let degrouped = spec_remove(spec_trim(num), options.group_sep);
    let packed = if options.whitespace {
        spec_strip_whitespace(degrouped)
    } else {
        degrouped
    };
    spec_replace(packed, options.decimal_sep, '.')
}

/// The value of the number `num` for a type whose values run from `lower`
/// to `upper`. A number that is empty once cleaned stands for `def`, if
/// there is one. Failure names the number as it was written.
pub open spec fn spec_parse_number(
    num: Seq<char>,
    def: Option<int>,
    options: NumberRangeOptions<int>,
    lower: int,
    upper: int,
) -> Result<int, ParseFailure> {
    let clean = spec_sanitize(num, options);
    if def is Some && clean.len() == 0 {
        Ok(def->0)
    } else {
        match spec_parse_int(clean, lower, upper) {
            Some(v) => Ok(v),
            None => Err(ParseFailure::not_a_number(num)),
        }
    }
}

/// The term that `term` writes. Without a range separator it is a single
/// value. With one it is a range from start to end, in steps of 1; with two
/// it is a range from start by step to end. Start and end may be left out
/// where the options hold a default for them, and the step may be left out
/// for 1. The numbers are read from left to right and the first failure is
/// the term's. Three range separators or more are a failure.
pub open spec fn spec_parse_term(
    term: Seq<char>,
    options: NumberRangeOptions<int>,
    lower: int,
    upper: int,
) -> Result<Number<int>, ParseFailure> {
    let parts = spec_split(term, options.range_sep);
    if parts.len() == 1 {
        match spec_parse_number(term, None, options, lower, upper) {
            Ok(v) => Ok(Number::Single(v)),
            Err(e) => Err(e),
        }
    } else if parts.len() == 2 {
        match spec_parse_number(parts[0], options.default_start, options, lower, upper) {
            Err(e) => Err(e),
            Ok(start) => match spec_parse_number(
                parts[1],
                options.default_end,
                options,
                lower,
                upper,
            ) {
                Err(e) => Err(e),
                Ok(end) => Ok(Number::Range(start, 1, end)),
            },
        }
    } else if parts.len() == 3 {
        match spec_parse_number(parts[0], options.default_start, options, lower, upper) {
            Err(e) => Err(e),
            Ok(start) => match spec_parse_number(parts[1], Some(1), options, lower, upper) {
                Err(e) => Err(e),
                Ok(step) => match spec_parse_number(
                    parts[2],
                    options.default_end,
                    options,
                    lower,
                    upper,
                ) {
                    Err(e) => Err(e),
                    Ok(end) => Ok(Number::Range(start, step, end)),
                },
            },
        }
    } else {
        Err(ParseFailure::too_many_separators(options.range_sep, term))
    }
}

/// The terms that `pieces` write, in order, or the failure of the first
/// piece that fails.
pub open spec fn spec_parse_terms(
    pieces: Seq<Seq<char>>,
    options: NumberRangeOptions<int>,
    lower: int,
    upper: int,
) -> Result<Seq<Number<int>>, ParseFailure>
    decreases pieces.len(),
{
    if pieces.len() == 0 {
        Ok(Seq::empty())
    } else {
        match spec_parse_terms(pieces.drop_last(), options, lower, upper) {
            Err(e) => Err(e),
            Ok(terms) => match spec_parse_term(pieces.last(), options, lower, upper) {
                Err(e) => Err(e),
                Ok(term) => Ok(terms.push(term)),
            },
        }
    }
}

/// The terms that `text` writes. A text that is empty once cleaned as a
/// number writes no terms. Any other text is cut at the list separators,
/// and each piece is a term.
pub open spec fn spec_parse(
    text: Seq<char>,
    options: NumberRangeOptions<int>,
    lower: int,
    upper: int,
) -> Result<Seq<Number<int>>, ParseFailure> {
    if spec_sanitize(text, options).len() == 0 {
        Ok(Seq::empty())
    } else {
        spec_parse_terms(spec_split(text, options.list_sep), options, lower, upper)
    }
}

/// Reading a list succeeds exactly when each piece is read, and then gives
/// the term of each piece in its place.
pub proof fn lemma_parse_terms_ok(
    pieces: Seq<Seq<char>>,
    options: NumberRangeOptions<int>,
    lower: int,
    upper: int,
)
    ensures
        spec_parse_terms(pieces, options, lower, upper) is Ok <==> forall|i: int|
            0 <= i < pieces.len() ==> (#[trigger] spec_parse_term(
                pieces[i],
                options,
                lower,
                upper,
            )) is Ok,
        spec_parse_terms(pieces, options, lower, upper) matches Ok(terms) ==> {
            &&& terms.len() == pieces.len()
            &&& forall|i: int|
                0 <= i < pieces.len() ==> spec_parse_term(pieces[i], options, lower, upper) == Ok::<
                    Number<int>,
                    ParseFailure,
                >(#[trigger] terms[i])
        },
    decreases pieces.len(),
{
    if pieces.len() > 0 {
        let front = pieces.drop_last();
        lemma_parse_terms_ok(front, options, lower, upper);
        assert forall|i: int| 0 <= i < front.len() implies front[i] == pieces[i] by {}
        if spec_parse_terms(pieces, options, lower, upper) is Ok {
            assert forall|i: int| 0 <= i < pieces.len() implies (#[trigger] spec_parse_term(
                pieces[i],
                options,
                lower,
                upper,
            )) is Ok by {
                if i < front.len() {
                    assert(front[i] == pieces[i]);
                }
            }
        } else if spec_parse_terms(front, options, lower, upper) is Err {
            let i = choose|i: int|
                0 <= i < front.len() && !((#[trigger] spec_parse_term(
                    front[i],
                    options,
                    lower,
                    upper,
                )) is Ok);
            assert(front[i] == pieces[i]);
        } else {
            assert(pieces[pieces.len() - 1] == pieces.last());
        }
    }
}

/// Cleans a number for the reader of literals.
pub fn sanitize<T: Numeric>(num: &Vec<char>, options: &NumberRangeOptions<T>) -> (clean: Vec<char>)
    ensures
        clean@ == spec_sanitize(num@, options@),
{
    let trimmed: Vec<char> = trim(num);
    let degrouped: Vec<char> = remove(&trimmed, options.group_sep);
    let packed: Vec<char> = if options.whitespace {
        strip_whitespace(&degrouped)
    } else {
        degrouped
    };
    replace(&packed, options.decimal_sep, '.')
}

/// Reads a number, with `def` for one that is left out.
pub fn parse_number<T: Numeric>(
    num: &Vec<char>,
    def: Option<T>,
    options: &NumberRangeOptions<T>,
) -> (r: Result<T, NumberRangeParseError>)
    ensures
        number_outcome(r) == spec_parse_number(
            num@,
            option_as_int(def),
            options@,
            T::lower(),
            T::upper(),
        ),
{
    let clean: Vec<char> = sanitize(num, options);
    if clean.len() == 0 {
        if let Some(v) = def {
            return Ok(v);
        }
    }
    match parse_int::<T>(&clean) {
        Some(v) => Ok(v),
        None => Err(NumberRangeParseError::not_a_number(num)),
    }
}

/// Reads a term.
pub fn parse_term<T: Numeric>(term: &Vec<char>, options: &NumberRangeOptions<T>) -> (r: Result<
    Number<T>,
    NumberRangeParseError,
>)
    ensures
        term_outcome(r) == spec_parse_term(term@, options@, T::lower(), T::upper()),
{
    let parts: Vec<Vec<char>> = split(term, options.range_sep);
    proof {
        assert(views(parts@).len() == parts@.len());
        assert forall|i: int| 0 <= i < parts@.len() implies parts@[i]@ == spec_split(
            term@,
            options.range_sep,
        )[i] by {
            assert(views(parts@)[i] == parts@[i]@);
        }
    }
    if parts.len() == 1 {
        match parse_number(term, None, options) {
            Ok(v) => Ok(Number::Single(v)),
            Err(e) => Err(e),
        }
    } else if parts.len() == 2 {
        let start: T = match parse_number(&parts[0], options.default_start, options) {
            Ok(v) => v,
            Err(e) => {
                return Err(e);
            },
        };
        let end: T = match parse_number(&parts[1], options.default_end, options) {
            Ok(v) => v,
            Err(e) => {
                return Err(e);
            },
        };
        Ok(Number::Range(start, one::<T>(), end))
    } else if parts.len() == 3 {
        let start: T = match parse_number(&parts[0], options.default_start, options) {
            Ok(v) => v,
            Err(e) => {
                return Err(e);
            },
        };
        let step: T = match parse_number(&parts[1], Some(one::<T>()), options) {
            Ok(v) => v,
            Err(e) => {
                return Err(e);
            },
        };
        let end: T = match parse_number(&parts[2], options.default_end, options) {
            Ok(v) => v,
            Err(e) => {
                return Err(e);
            },
        };
        Ok(Number::Range(start, step, end))
    } else {
        Err(NumberRangeParseError::too_many_separators(options.range_sep, term))
    }
}

/// Reads each piece as a term, and stops at the first that fails.
pub fn parse_terms<T: Numeric>(pieces: &Vec<Vec<char>>, options: &NumberRangeOptions<T>) -> (r:
    Result<VecDeque<Number<T>>, NumberRangeParseError>)
    ensures
        list_outcome(r) == spec_parse_terms(views(pieces@), options@, T::lower(), T::upper()),
{
    let mut terms: VecDeque<Number<T>> = VecDeque::new();
    let mut i: usize = 0;
    proof {
        assert(views(pieces@).take(0) == Seq::<Seq<char>>::empty());
        assert(term_views(terms@) == Seq::<Number<int>>::empty());
    }
    while i < pieces.len()
        invariant
            i <= pieces.len(),
            spec_parse_terms(views(pieces@).take(i as int), options@, T::lower(), T::upper())
                == Ok::<Seq<Number<int>>, ParseFailure>(term_views(terms@)),
        decreases pieces.len() - i,
    {
        let ghost done = terms@;
        proof {
            assert(views(pieces@).take(i as int + 1).drop_last() == views(pieces@).take(i as int));
            assert(views(pieces@).take(i as int + 1).last() == pieces@[i as int]@);
        }
        match parse_term(&pieces[i], options) {
            Ok(term) => {
                terms.push_back(term);
                proof {
                    assert(term_views(terms@) == term_views(done).push(term@));
                }
            },
            Err(e) => {
                proof {
                    lemma_parse_terms_prefix(
                        views(pieces@),
                        options@,
                        T::lower(),
                        T::upper(),
                        i as int + 1,
                    );
                }
                return Err(e);
            },
        }
        i += 1;
    }
    proof {
        assert(views(pieces@).take(pieces@.len() as int) == views(pieces@));
    }
    Ok(terms)
}

/// Where reading the first `k` pieces of a list fails, reading the list
/// fails in the same way.
pub proof fn lemma_parse_terms_prefix(
    pieces: Seq<Seq<char>>,
    options: NumberRangeOptions<int>,
    lower: int,
    upper: int,
    k: int,
)
    requires
        0 <= k <= pieces.len(),
        spec_parse_terms(pieces.take(k), options, lower, upper) is Err,
    ensures
        spec_parse_terms(pieces, options, lower, upper) == spec_parse_terms(
            pieces.take(k),
            options,
            lower,
            upper,
        ),
    decreases pieces.len(),
{
    if k == pieces.len() {
        assert(pieces.take(k) == pieces);
    } else {
        assert(pieces.drop_last().take(k) == pieces.take(k));
        lemma_parse_terms_prefix(pieces.drop_last(), options, lower, upper, k);
    }
}

/// Reads a text.
pub fn parse_text<T: Numeric>(text: &str, options: &NumberRangeOptions<T>) -> (r: Result<
    VecDeque<Number<T>>,
    NumberRangeParseError,
>)
    ensures
        list_outcome(r) == spec_parse(text@, options@, T::lower(), T::upper()),
{
    let chars: Vec<char> = to_chars(text);
    if sanitize(&chars, options).len() == 0 {
        let none: VecDeque<Number<T>> = VecDeque::new();
        proof {
            assert(term_views(none@) == Seq::<Number<int>>::empty());
        }
        return Ok(none);
    }
    let pieces: Vec<Vec<char>> = split(&chars, options.list_sep);
    parse_terms(&pieces, options)
}

} // verus!
