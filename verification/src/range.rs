//! Range sets: ordered collections of terms that hand out their values.

use crate::decimal::{format_int, spec_decimal};
use crate::error::{NumberRangeParseError, ParseFailure};
use crate::grammar::{number_outcome, spec_parse, spec_parse_number, spec_sanitize};
use crate::grammar::{parse_number, parse_text, sanitize, term_views};
use crate::number::{lemma_term_unfold, rest_values, Number};
use crate::numeric::{option_as_int, Numeric};
use crate::options::{default_options, NumberRangeOptions};
use crate::text::{join, spec_join, string_views, to_chars, to_text};
use std::collections::VecDeque;
use vstd::prelude::*;

verus! {

/// An ordered collection of terms, with the text it was read from and the
/// options it is read and written with.
///
/// The terms are open to the caller: they may be pushed, popped and changed
/// at either end. Taking values changes them too: a range moves on by one
/// step for each value taken, and a term that has no values left is removed.
#[derive(Debug)]
pub struct NumberRange<'a, T> {
    /// The terms, first to last.
    pub numbers: VecDeque<Number<T>>,
    /// The text last handed to `parse_str`. It is kept for the caller to
    /// look at; taking values and changing terms leave it as it is.
    pub original_repr: Option<&'a str>,
    /// The options that texts are read and written with.
    pub options: NumberRangeOptions<T>,
}

/// The terms from the first valid one on.
pub open spec fn spec_skip_invalid(terms: Seq<Number<int>>) -> Seq<Number<int>>
    decreases terms.len(),
{
    if terms.len() > 0 && !terms.first().valid() {
        spec_skip_invalid(terms.drop_first())
    } else {
        terms
    }
}

/// The terms as they are once the first value of `first` is taken: `first`
/// gives way to its rest, or leaves.
pub open spec fn spec_after(first: Number<int>, others: Seq<Number<int>>) -> Seq<Number<int>> {
    match first.rest() {
        Some(rest) => seq![rest] + others,
        None => others,
    }
}

/// One pull: the value that comes out, if any, and the terms afterwards.
/// Invalid terms at the front leave without a value. The first valid term
/// hands out its first value.
pub open spec fn spec_next(terms: Seq<Number<int>>) -> (Option<int>, Seq<Number<int>>) {
    let live = spec_skip_invalid(terms);
    if live.len() == 0 {
        (None, live)
    } else {
        (Some(live.first().head()), spec_after(live.first(), live.drop_first()))
    }
}

/// All the values of the terms, term after term.
pub open spec fn spec_values(terms: Seq<Number<int>>) -> Seq<int>
    decreases terms.len(),
{
    if terms.len() == 0 {
        Seq::empty()
    } else {
        terms.first().values() + spec_values(terms.drop_first())
    }
}

/// What each of `values` stands for.
pub open spec fn value_views<T: Numeric>(values: Seq<T>) -> Seq<int> {
    values.map_values(|v: T| v.as_int())
}

/// The literals of `start` and `end` around the separator.
pub open spec fn pair_text(start: int, end: int, sep: char) -> Seq<char> {
    spec_decimal(start) + seq![sep] + spec_decimal(end)
}

/// The literals of `start`, `step` and `end` with the separator between
/// each two.
pub open spec fn triple_text(start: int, step: int, end: int, sep: char) -> Seq<char> {
    spec_decimal(start) + seq![sep] + spec_decimal(step) + seq![sep] + spec_decimal(end)
}

/// A term as text: a single value as its decimal literal, a range as start
/// and end around the range separator, with the step between them unless it
/// is 1.
pub open spec fn spec_format_term(term: Number<int>, range_sep: char) -> Seq<char> {
    match term {
        Number::Single(v) => spec_decimal(v),
        Number::Range(start, step, end) => if step == 1 {
            pair_text(start, end, range_sep)
        } else {
            triple_text(start, step, end, range_sep)
        },
    }
}

/// Each term as text.
pub open spec fn spec_format_terms(terms: Seq<Number<int>>, range_sep: char) -> Seq<Seq<char>> {
    terms.map_values(|t: Number<int>| spec_format_term(t, range_sep))
}

/// The terms as text: each term as text, with the list separator between
/// each two.
pub open spec fn spec_format(terms: Seq<Number<int>>, list_sep: char, range_sep: char) -> Seq<
    char,
> {
    spec_join(spec_format_terms(terms, range_sep), seq![list_sep])
}

/// Invalid terms at the front hold no values.
pub proof fn lemma_skip_invalid_values(terms: Seq<Number<int>>)
    ensures
        spec_values(spec_skip_invalid(terms)) == spec_values(terms),
        spec_skip_invalid(terms).len() > 0 ==> spec_skip_invalid(terms).first().valid(),
    decreases terms.len(),
{
    if terms.len() > 0 && !terms.first().valid() {
        lemma_skip_invalid_values(terms.drop_first());
        assert(terms.first().values() == Seq::<int>::empty());
        assert(Seq::<int>::empty() + spec_values(terms.drop_first()) == spec_values(
            terms.drop_first(),
        ));
    }
}

/// A pull hands out the first of all the values and leaves the others; it
/// hands out nothing exactly when there are no values, and then no term is
/// left.
pub proof fn lemma_next_values(terms: Seq<Number<int>>)
    ensures
        spec_next(terms).0 is None <==> spec_values(terms).len() == 0,
        spec_next(terms).0 is None ==> spec_next(terms).1.len() == 0,
        spec_next(terms).0 matches Some(v) ==> spec_values(terms) == seq![v] + spec_values(
            spec_next(terms).1,
        ),
{
    lemma_skip_invalid_values(terms);
    let live = spec_skip_invalid(terms);
    if live.len() > 0 {
        let first = live.first();
        let others = live.drop_first();
        lemma_term_unfold(first);
        let after = spec_after(first, others);
        assert(spec_values(after) == rest_values(first.rest()) + spec_values(others)) by {
            match first.rest() {
                Some(rest) => {
                    assert(after.first() == rest);
                    assert(after.drop_first() == others);
                },
                None => {
                    assert(Seq::<int>::empty() + spec_values(others) == spec_values(others));
                },
            }
        }
        assert(spec_values(live) == seq![first.head()] + spec_values(after)) by {
            assert(spec_values(live) == (seq![first.head()] + rest_values(first.rest()))
                + spec_values(others));
            assert((seq![first.head()] + rest_values(first.rest())) + spec_values(others) == seq![
                first.head(),
            ] + (rest_values(first.rest()) + spec_values(others)));
        }
    }
}

impl<'a, T: Numeric> Clone for NumberRange<'a, T> {
    /// The same terms, text and options.
    fn clone(&self) -> (copy: Self)
        ensures
            copy.numbers@ == self.numbers@,
            copy.original_repr == self.original_repr,
            copy.options == self.options,
    {
        let mut numbers: VecDeque<Number<T>> = VecDeque::new();
        let mut i: usize = 0;
        while i < self.numbers.len()
            invariant
                i <= self.numbers.len(),
                numbers@ == self.numbers@.take(i as int),
            decreases self.numbers.len() - i,
        {
            numbers.push_back(self.numbers[i]);
            proof {
                assert(self.numbers@.take(i as int + 1) == self.numbers@.take(i as int).push(
                    self.numbers@[i as int],
                ));
            }
            i += 1;
        }
        proof {
            assert(self.numbers@.take(self.numbers@.len() as int) == self.numbers@);
        }
        NumberRange { numbers, original_repr: self.original_repr, options: self.options }
    }
}

impl<'a, T: Numeric> Default for NumberRange<'a, T> {
    /// No terms, no text, the default options.
    fn default() -> (range: Self)
        ensures
            range.numbers@.len() == 0,
            range.source() is None,
            range.options == default_options::<T>(),
    {
        NumberRange {
            numbers: VecDeque::new(),
            original_repr: None,
            options: NumberRangeOptions::new(),
        }
    }
}

impl<'a, T: Numeric> NumberRange<'a, T> {
    /// The text that the terms were last read from, if any was given.
    pub open spec fn source(&self) -> Option<Seq<char>> {
        match self.original_repr {
            Some(text) => Some(text@),
            None => None,
        }
    }

    /// What the terms stand for.
    pub open spec fn terms(&self) -> Seq<Number<int>> {
        term_views(self.numbers@)
    }

    /// All the values that are still to come, in order.
    pub open spec fn values(&self) -> Seq<int> {
        spec_values(self.terms())
    }

    /// No terms, no text, the given options.
    pub fn from_options(options: NumberRangeOptions<T>) -> (range: Self)
        ensures
            range.numbers@.len() == 0,
            range.source() is None,
            range.options == options,
    {
        NumberRange { numbers: VecDeque::new(), original_repr: None, options }
    }

    /// The text that the terms were last read from; empty if none was given.
    pub fn original(&self) -> (text: &str)
        ensures
            text@ == match self.source() {
                Some(source) => source,
                None => Seq::empty(),
            },
    {
        match self.original_repr {
            Some(text) => text,
            None => {
                proof {
                    reveal_strlit("");
                }
                ""
            },
        }
    }

    /// Takes `numstr` as the text and reads the terms from it, in place of
    /// those held before. Nothing is kept of a text that cannot be read.
    pub fn parse_str(self, numstr: &'a str) -> (r: Result<Self, NumberRangeParseError>)
        ensures
            match spec_parse(numstr@, self.options@, T::lower(), T::upper()) {
                Ok(terms) => r matches Ok(range) && range.terms() == terms && range.options
                    == self.options && range.source() == Some(numstr@),
                Err(e) => r matches Err(error) && error@ == e,
            },
    {
        let mut range = self;
        range.original_repr = Some(numstr);
        range.parse()
    }

    /// A number of `num` as it is handed to the reader of literals.
    pub fn sanitize_number(&self, num: &str) -> (clean: String)
        ensures
            clean@ == spec_sanitize(num@, self.options@),
    {
        let chars: Vec<char> = to_chars(num);
        let clean: Vec<char> = sanitize(&chars, &self.options);
        to_text(&clean)
    }

    /// Reads the number `num`, with `def` for one that is left out.
    pub fn parse_number(&self, num: &str, def: &Option<T>) -> (r: Result<T, NumberRangeParseError>)
        ensures
            number_outcome(r) == spec_parse_number(
                num@,
                option_as_int(*def),
                self.options@,
                T::lower(),
                T::upper(),
            ),
    {
        let chars: Vec<char> = to_chars(num);
        parse_number(&chars, *def, &self.options)
    }

    /// Reads the terms from the text that was given, in place of those held
    /// before. It fails where no text was given, and where the text cannot
    /// be read.
    pub fn parse(self) -> (r: Result<Self, NumberRangeParseError>)
        ensures
            match self.source() {
                Some(text) => match spec_parse(text, self.options@, T::lower(), T::upper()) {
                    Ok(terms) => r matches Ok(range) && range.terms() == terms && range.options
                        == self.options && range.source() == self.source(),
                    Err(e) => r matches Err(error) && error@ == e,
                },
                None => r matches Err(error) && error@ == ParseFailure::nothing_to_parse(),
            },
    {
        let mut range = self;
        match range.original_repr {
            Some(text) => match parse_text(text, &range.options) {
                Ok(numbers) => {
                    range.numbers = numbers;
                    Ok(range)
                },
                Err(e) => Err(e),
            },
            None => Err(NumberRangeParseError::nothing_to_parse()),
        }
    }

    /// Pulls the next value. Invalid terms at the front are dropped without
    /// a value; the first valid term hands out its first value and moves on
    /// or leaves. `None` means that no value is left, and then no term is.
    pub fn next(&mut self) -> (value: Option<T>)
        ensures
            (option_as_int(value), final(self).terms()) == spec_next(old(self).terms()),
            final(self).options == old(self).options,
            final(self).source() == old(self).source(),
            value is None <==> old(self).values().len() == 0,
            value is None ==> final(self).numbers@.len() == 0,
            value matches Some(v) ==> old(self).values() == seq![v.as_int()]
                + final(self).values(),
    {
        while self.numbers.len() > 0
            invariant
                spec_skip_invalid(self.terms()) == spec_skip_invalid(old(self).terms()),
                self.options == old(self).options,
                self.source() == old(self).source(),
            decreases self.numbers.len(),
        {
            let front: Number<T> = self.numbers[0];
            let ghost before = self.numbers@;
            proof {
                assert(term_views(before).first() == front@);
                assert(term_views(before).drop_first() == term_views(before.drop_first()));
                assert(before.subrange(1, before.len() as int) == before.drop_first());
            }
            if front.is_valid() {
                let first: T = front.first();
                let rest: Option<Number<T>> = front.advance();
                self.numbers.pop_front();
                if let Some(term) = rest {
                    self.numbers.push_front(term);
                    proof {
                        assert(term_views(seq![term] + before.drop_first()) == seq![term@]
                            + term_views(before.drop_first()));
                    }
                }
                proof {
                    lemma_next_values(old(self).terms());
                }
                return Some(first);
            }
            self.numbers.pop_front();
        }
        proof {
            assert(self.terms().len() == 0);
            lemma_next_values(old(self).terms());
        }
        None
    }

    /// Pulls all the values that are left.
    pub fn collect(self) -> (values: Vec<T>)
        ensures
            value_views(values@) == self.values(),
    {
        let mut range = self;
        let mut values: Vec<T> = Vec::new();
        proof {
            assert(value_views(values@) + range.values() == self.values());
        }
        loop
            invariant
                value_views(values@) + range.values() == self.values(),
            decreases range.values().len(),
        {
            let ghost taken = values@;
            let ghost left = range.values();
            match range.next() {
                Some(v) => {
                    values.push(v);
                    proof {
                        assert(value_views(values@) == value_views(taken).push(v.as_int()));
                        assert(value_views(taken).push(v.as_int()) + range.values() == value_views(
                            taken,
                        ) + left);
                    }
                },
                None => {
                    proof {
                        assert(value_views(values@) + left == value_views(values@));
                    }
                    return values;
                },
            }
        }
    }

    /// The terms that are left, as text.
    pub fn to_string(&self) -> (text: String)
        ensures
            text@ == spec_format(self.terms(), self.options.list_sep, self.options.range_sep),
    {
        let range_sep: char = self.options.range_sep;
        let mut parts: Vec<String> = Vec::new();
        let mut i: usize = 0;
        proof {
            assert(string_views(parts@) == spec_format_terms(self.terms().take(0), range_sep));
        }
        while i < self.numbers.len()
            invariant
                i <= self.numbers.len(),
                range_sep == self.options.range_sep,
                string_views(parts@) == spec_format_terms(self.terms().take(i as int), range_sep),
            decreases self.numbers.len() - i,
        {
            let part: String = to_text(&format_term(&self.numbers[i], range_sep));
            let ghost done = parts@;
            parts.push(part);
            proof {
                assert(string_views(parts@) == string_views(done).push(part@));
                assert(self.terms().take(i as int + 1) == self.terms().take(i as int).push(
                    self.numbers@[i as int]@,
                ));
                assert(spec_format_terms(self.terms().take(i as int + 1), range_sep)
                    == spec_format_terms(self.terms().take(i as int), range_sep).push(
                    spec_format_term(self.numbers@[i as int]@, range_sep),
                ));
            }
            i += 1;
        }
        proof {
            assert(self.terms().take(self.numbers@.len() as int) == self.terms());
        }
        let mut sep: String = String::new();
        sep.push(self.options.list_sep);
        join(&parts, sep.as_str())
    }
}

/// A term as text.
pub fn format_term<T: Numeric>(term: &Number<T>, range_sep: char) -> (text: Vec<char>)
    ensures
        text@ == spec_format_term(term@, range_sep),
{
    match term {
        Number::Single(v) => format_int(*v),
        Number::Range(start, step, end) => {
            let mut text: Vec<char> = format_int(*start);
            text.push(range_sep);
            if !step.to_wide().is_one() {
                let mut middle: Vec<char> = format_int(*step);
                text.append(&mut middle);
                text.push(range_sep);
            }
            let mut tail: Vec<char> = format_int(*end);
            text.append(&mut tail);
            text
        },
    }
}

} // verus!
