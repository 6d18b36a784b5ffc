//! Why a text was not read.

use crate::text::to_text;
use vstd::prelude::*;
use vstd::string::StringExecFns;

verus! {

/// The ways in which reading a text fails.
#[derive(Debug, PartialEq, Eq)]
pub enum ParseErrorKind {
    /// A number is no literal of the number type.
    NotANumber,
    /// A term holds the range separator, which is given, three times or
    /// more.
    TooManySeparators(char),
    /// There is no text to read.
    NothingToParse,
}

impl Clone for ParseErrorKind {
    fn clone(&self) -> (copy: Self)
        ensures
            copy == *self,
    {
        *self
    }
}

impl Copy for ParseErrorKind {

}

/// A failure to read a text: its kind, and the part of the text that it is
/// about, as it was written. For a number that part is the number before
/// any cleaning; for too many separators it is the whole term; where there
/// was no text it is empty.
#[derive(Debug, PartialEq, Eq)]
pub struct NumberRangeParseError {
    /// What went wrong.
    pub kind: ParseErrorKind,
    /// The part of the text that it went wrong with.
    pub text: String,
}

impl Clone for NumberRangeParseError {
    fn clone(&self) -> (copy: Self)
        ensures
            copy@ == self@,
    {
        NumberRangeParseError { kind: self.kind, text: self.text.clone() }
    }
}

/// What a `NumberRangeParseError` stands for.
pub struct ParseFailure {
    /// What went wrong.
    pub kind: ParseErrorKind,
    /// The part of the text that it went wrong with.
    pub text: Seq<char>,
}

impl View for NumberRangeParseError {
    type V = ParseFailure;

    open spec fn view(&self) -> ParseFailure {
        ParseFailure { kind: self.kind, text: self.text@ }
    }
}

impl ParseFailure {
    /// The failure to read `text` as a number.
    pub open spec fn not_a_number(text: Seq<char>) -> ParseFailure {
        ParseFailure { kind: ParseErrorKind::NotANumber, text }
    }

    /// The failure to read `term`, which holds `sep` too often.
    pub open spec fn too_many_separators(sep: char, term: Seq<char>) -> ParseFailure {
        ParseFailure { kind: ParseErrorKind::TooManySeparators(sep), text: term }
    }

    /// The failure to read where no text was given.
    pub open spec fn nothing_to_parse() -> ParseFailure {
        ParseFailure { kind: ParseErrorKind::NothingToParse, text: Seq::empty() }
    }

    /// The failure in words.
    pub open spec fn message(self) -> Seq<char> {
        match self.kind {
            ParseErrorKind::NotANumber => self.text + " Not a Number"@,
            ParseErrorKind::TooManySeparators(sep) => "Too many range separators ("@ + seq![sep]
                + ") on "@ + self.text,
            ParseErrorKind::NothingToParse => "Nothing to Parse"@,
        }
    }
}

impl NumberRangeParseError {
    /// The failure to read `text` as a number.
    pub fn not_a_number(text: &Vec<char>) -> (error: Self)
        ensures
            error@ == ParseFailure::not_a_number(text@),
    {
        NumberRangeParseError { kind: ParseErrorKind::NotANumber, text: to_text(text) }
    }

    /// The failure to read `term`, which holds `sep` too often.
    pub fn too_many_separators(sep: char, term: &Vec<char>) -> (error: Self)
        ensures
            error@ == ParseFailure::too_many_separators(sep, term@),
    {
        NumberRangeParseError { kind: ParseErrorKind::TooManySeparators(sep), text: to_text(term) }
    }

    /// The failure to read where no text was given.
    pub fn nothing_to_parse() -> (error: Self)
        ensures
            error@ == ParseFailure::nothing_to_parse(),
    {
        NumberRangeParseError { kind: ParseErrorKind::NothingToParse, text: String::new() }
    }

    /// The failure in words.
    pub fn to_string(&self) -> (message: String)
        ensures
            message@ == self@.message(),
    {
        match self.kind {
            ParseErrorKind::NotANumber => {
                let mut message: String = self.text.clone();
                message.append(" Not a Number");
                message
            },
            ParseErrorKind::TooManySeparators(sep) => {
                let mut message: String = String::from_str("Too many range separators (");
                message.push(sep);
                message.append(") on ");
                message.append(self.text.as_str());
                message
            },
            ParseErrorKind::NothingToParse => String::from_str("Nothing to Parse"),
        }
    }
}

} // verus!
