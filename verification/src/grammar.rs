//! The grammar of an invocation: a string literal, a comma, a string
//! literal, and nothing after them.

use vstd::prelude::*;
use crate::diagnostic::{Expected, SyntaxError};
use crate::token::{lex, reading, reads_as, Lexeme, LexemeView, Location, Token, TokenView};

verus! {

/// The two arguments of an invocation, read and checked.
#[derive(Clone, Debug, PartialEq, Eq)]
pub struct Arguments {
    /// The text to split.
    pub subject: String,
    /// The text to split on.
    pub delimiter: String,
    /// Where the delimiter argument stands in the invocation.
    pub delimiter_location: Location,
}

/// The mathematical value of `Arguments`.
pub struct ArgumentsView {
    pub subject: Seq<char>,
    pub delimiter: Seq<char>,
    pub delimiter_location: Location,
}

impl View for Arguments {
    type V = ArgumentsView;

    open spec fn view(&self) -> ArgumentsView {
        ArgumentsView {
            subject: self.subject@,
            delimiter: self.delimiter@,
            delimiter_location: self.delimiter_location,
        }
    }
}

/// The invocation has the shape that the grammar asks for.
pub open spec fn well_formed(lexemes: Seq<LexemeView>) -> bool {
    &&& lexemes.len() == 3
    &&& lexemes[0] is Str
    &&& lexemes[1] is Comma
    &&& lexemes[2] is Str
}

/// The place of the lexeme at `index`, or of the whole invocation where the
/// lexemes end before it.
pub open spec fn place_of(lexemes: Seq<LexemeView>, index: usize) -> Location {
    if index < lexemes.len() {
        Location::Token(index)
    } else {
        Location::CallSite
    }
}

/// What the grammar makes of an invocation. The lexemes are read from left
/// to right, and the first one that does not fit decides the error.
pub open spec fn parsed(lexemes: Seq<LexemeView>) -> Result<ArgumentsView, SyntaxError> {
    if !(lexemes.len() > 0 && lexemes[0] is Str) {
        Err(SyntaxError { expected: Expected::StringLiteral, location: place_of(lexemes, 0) })
    } else if !(lexemes.len() > 1 && lexemes[1] is Comma) {
        Err(SyntaxError { expected: Expected::Comma, location: place_of(lexemes, 1) })
    } else if !(lexemes.len() > 2 && lexemes[2] is Str) {
        Err(SyntaxError { expected: Expected::StringLiteral, location: place_of(lexemes, 2) })
    } else if lexemes.len() > 3 {
        Err(SyntaxError { expected: Expected::EndOfInput, location: Location::Token(3) })
    } else {
        Ok(
            ArgumentsView {
                subject: lexemes[0]->Str_0,
                delimiter: lexemes[2]->Str_0,
                delimiter_location: Location::Token(2),
            },
        )
    }
}

/// The mathematical value of a parse.
pub open spec fn parse_view(outcome: Result<Arguments, SyntaxError>) -> Result<
    ArgumentsView,
    SyntaxError,
> {
    match outcome {
        Ok(arguments) => Ok(arguments@),
        Err(error) => Err(error),
    }
}

/// The string literal at `index`, or the error that asks for one there.
fn string_at(lexemes: &Vec<Lexeme>, index: usize) -> (text: Result<String, SyntaxError>)
    ensures
        match text {
            Ok(text) => index < lexemes.len() && lexemes[index as int]@ == LexemeView::Str(text@),
            Err(error) => {
                &&& !(index < lexemes.len() && lexemes[index as int]@ is Str)
                &&& error == SyntaxError {
                    expected: Expected::StringLiteral,
                    location: place_of(lexemes.deep_view(), index),
                }
            },
        },
{
    if index < lexemes.len() {
        match &lexemes[index] {
            Lexeme::Str(text) => Ok(text.clone()),
            _ => Err(
                SyntaxError { expected: Expected::StringLiteral, location: Location::Token(index) },
            ),
        }
    } else {
        Err(SyntaxError { expected: Expected::StringLiteral, location: Location::CallSite })
    }
}

/// Checks the lexemes of an invocation against the grammar and takes the two
/// arguments out of them.
pub fn parse_lexemes(lexemes: &Vec<Lexeme>) -> (outcome: Result<Arguments, SyntaxError>)
    ensures
        parse_view(outcome) == parsed(lexemes.deep_view()),
        outcome is Ok <==> well_formed(lexemes.deep_view()),
{
    let subject = match string_at(lexemes, 0) {
        Ok(text) => text,
        Err(error) => { return Err(error); },
    };
    if lexemes.len() < 2 {
        return Err(SyntaxError { expected: Expected::Comma, location: Location::CallSite });
    }
    match &lexemes[1] {
        Lexeme::Comma => {},
        _ => {
            return Err(SyntaxError { expected: Expected::Comma, location: Location::Token(1) });
        },
    }
    let delimiter = match string_at(lexemes, 2) {
        Ok(text) => text,
        Err(error) => { return Err(error); },
    };
    if lexemes.len() > 3 {
        return Err(SyntaxError { expected: Expected::EndOfInput, location: Location::Token(3) });
    }
    Ok(Arguments { subject, delimiter, delimiter_location: Location::Token(2) })
}

/// The tokens have the shape of an invocation before any literal is read: a
/// literal, a comma, a literal.
pub open spec fn shaped(tokens: Seq<TokenView>) -> bool {
    &&& tokens.len() == 3
    &&& tokens[0] is Literal
    &&& tokens[1] == TokenView::Punct(',')
    &&& tokens[2] is Literal
}

/// Reads the two arguments of an invocation from its tokens: the outcome is
/// what the grammar makes of a reading of the tokens.
pub fn parse_arguments(tokens: &Vec<Token>) -> (outcome: Result<Arguments, SyntaxError>)
    ensures
        exists|lexemes: Seq<LexemeView>| #[trigger]
            reading(tokens.deep_view(), lexemes) && parse_view(outcome) == parsed(lexemes),
        outcome is Ok ==> shaped(tokens.deep_view()),
{
    let lexemes = lex(tokens);
    proof {
        lemma_well_formed_reading(tokens.deep_view(), lexemes.deep_view());
    }
    parse_lexemes(&lexemes)
}

/// Only tokens of the shape literal, comma, literal have a well-formed
/// reading.
pub proof fn lemma_well_formed_reading(tokens: Seq<TokenView>, lexemes: Seq<LexemeView>)
    requires
        reading(tokens, lexemes),
    ensures
        well_formed(lexemes) ==> shaped(tokens),
{
    if well_formed(lexemes) {
        assert(reads_as(tokens[0], lexemes[0]));
        assert(reads_as(tokens[1], lexemes[1]));
        assert(reads_as(tokens[2], lexemes[2]));
    }
}

/// An invocation parses exactly when it is well formed: one that lacks the
/// comma or an argument, has something else in place of a string literal, or
/// goes on after the second argument is a syntax error.
pub proof fn lemma_parsed_iff_well_formed(lexemes: Seq<LexemeView>)
    ensures
        parsed(lexemes) is Ok <==> well_formed(lexemes),
        parsed(lexemes) matches Ok(arguments) ==> {
            &&& lexemes[0] == LexemeView::Str(arguments.subject)
            &&& lexemes[2] == LexemeView::Str(arguments.delimiter)
            &&& arguments.delimiter_location == Location::Token(2)
        },
{
}

} // verus!
