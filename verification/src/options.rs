//! The separators and defaults that a text is read and written with.

use crate::decimal::is_literal_char;
use crate::error::NumberRangeParseError;
use crate::grammar::spec_parse;
use crate::numeric::{option_as_int, Numeric};
use crate::range::NumberRange;
use vstd::prelude::*;

verus! {

/// How a text is cut into terms and numbers.
///
/// No character is refused as a separator. Where two roles share a
/// character the earlier use wins: the list separator cuts first, the
/// range separator cuts each term, and inside a number the group separator
/// is removed before whitespace and before the decimal separator is
/// replaced.
#[derive(Debug)]
pub struct NumberRangeOptions<T> {
    /// Removed from every number before it is read.
    pub group_sep: char,
    /// Whether whitespace inside a number is removed too; whitespace around
    /// a number always is.
    pub whitespace: bool,
    /// Replaced by `.` in every number before it is read.
    pub decimal_sep: char,
    /// Separates the terms of a list.
    pub list_sep: char,
    /// Separates start, step and end of a range.
    pub range_sep: char,
    /// The start of a range whose start is left out.
    pub default_start: Option<T>,
    /// The end of a range whose end is left out.
    pub default_end: Option<T>,
}

impl<T: Copy> Clone for NumberRangeOptions<T> {
    fn clone(&self) -> (copy: Self)
        ensures
            copy == *self,
    {
        *self
    }
}

impl<T: Copy> Copy for NumberRangeOptions<T> {

}

impl<T: Numeric> View for NumberRangeOptions<T> {
    type V = NumberRangeOptions<int>;

    open spec fn view(&self) -> NumberRangeOptions<int> {
        NumberRangeOptions {
            group_sep: self.group_sep,
            whitespace: self.whitespace,
            decimal_sep: self.decimal_sep,
            list_sep: self.list_sep,
            range_sep: self.range_sep,
            default_start: option_as_int(self.default_start),
            default_end: option_as_int(self.default_end),
        }
    }
}

/// The options in force when none are chosen: `,` between terms, `:` inside
/// a range, `.` as decimal separator, `_` as group separator, whitespace
/// inside numbers kept, no default bounds.
pub open spec fn default_options<T>() -> NumberRangeOptions<T> {
    NumberRangeOptions {
        group_sep: '_',
        whitespace: false,
        decimal_sep: '.',
        list_sep: ',',
        range_sep: ':',
        default_start: None,
        default_end: None,
    }
}

/// Whether writing with `options` can be read back: no separator can stand
/// in a literal, and the list separator is not the range separator.
pub open spec fn plain_separators(options: NumberRangeOptions<int>) -> bool {
    &&& !is_literal_char(options.list_sep)
    &&& !is_literal_char(options.range_sep)
    &&& !is_literal_char(options.group_sep)
    &&& !is_literal_char(options.decimal_sep)
    &&& options.list_sep != options.range_sep
}

impl<T: Numeric> Default for NumberRangeOptions<T> {
    fn default() -> (options: Self)
        ensures
            options == default_options::<T>(),
    {
        Self::new()
    }
}

impl<T: Numeric> NumberRangeOptions<T> {
    /// The default options.
    pub fn new() -> (options: Self)
        ensures
            options == default_options::<T>(),
    {
        Self {
            list_sep: ',',
            range_sep: ':',
            decimal_sep: '.',
            group_sep: '_',
            whitespace: false,
            default_start: None,
            default_end: None,
        }
    }

    /// The same options with another group separator.
    pub fn with_group_sep(self, sep: char) -> (options: Self)
        ensures
            options == (NumberRangeOptions { group_sep: sep, ..self }),
    {
        NumberRangeOptions { group_sep: sep, ..self }
    }

    /// The same options with whitespace inside numbers removed, or kept.
    pub fn with_whitespace(self, flag: bool) -> (options: Self)
        ensures
            options == (NumberRangeOptions { whitespace: flag, ..self }),
    {
        NumberRangeOptions { whitespace: flag, ..self }
    }

    /// The same options with another decimal separator.
    pub fn with_decimal_sep(self, sep: char) -> (options: Self)
        ensures
            options == (NumberRangeOptions { decimal_sep: sep, ..self }),
    {
        NumberRangeOptions { decimal_sep: sep, ..self }
    }

    /// The same options with another list separator.
    pub fn with_list_sep(self, sep: char) -> (options: Self)
        ensures
            options == (NumberRangeOptions { list_sep: sep, ..self }),
    {
        NumberRangeOptions { list_sep: sep, ..self }
    }

    /// The same options with another range separator.
    pub fn with_range_sep(self, sep: char) -> (options: Self)
        ensures
            options == (NumberRangeOptions { range_sep: sep, ..self }),
    {
        NumberRangeOptions { range_sep: sep, ..self }
    }

    /// The same options with a start for ranges that name none.
    pub fn with_default_start(self, def: T) -> (options: Self)
        ensures
            options == (NumberRangeOptions { default_start: Some(def), ..self }),
    {
        NumberRangeOptions { default_start: Some(def), ..self }
    }

    /// The same options with an end for ranges that name none.
    pub fn with_default_end(self, def: T) -> (options: Self)
        ensures
            options == (NumberRangeOptions { default_end: Some(def), ..self }),
    {
        NumberRangeOptions { default_end: Some(def), ..self }
    }

    /// Reads `numstr` with these options into a new range set.
    pub fn parse<'a>(self, numstr: &'a str) -> (r: Result<
        NumberRange<'a, T>,
        NumberRangeParseError,
    >)
        ensures
            match spec_parse(numstr@, self@, T::lower(), T::upper()) {
                Ok(terms) => r matches Ok(range) && range.terms() == terms && range.options == self
                    && range.source() == Some(numstr@),
                Err(e) => r matches Err(error) && error@ == e,
            },
    {
        NumberRange::from_options(self).parse_str(numstr)
    }
}

} // verus!
