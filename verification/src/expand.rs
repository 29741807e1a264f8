//! The two expansions: an invocation becomes the segments of its subject, or
//! the two halves of it around the first delimiter, or a diagnostic.
//!
//! Each operation stands twice. On lexemes the expansion is fixed by the
//! contract. On tokens it is the expansion of a reading of the tokens, the
//! one that the token libraries gave.

use vstd::prelude::*;
use crate::diagnostic::{ContainmentError, Error};
use crate::grammar::{
    lemma_well_formed_reading, parse_lexemes, parsed, shaped, well_formed, Arguments, ArgumentsView,
};
use crate::search::{contains, none_before};
use crate::segments::{
    halves, join, lemma_halves_rejoin, lemma_join_segments, lemma_segments_of_contained, segments,
    split_text, split_text_once, text_contains,
};
use crate::token::{lex, reading, Lexeme, LexemeView, Location, Token, TokenView};

verus! {

/// The mathematical value of an expansion into segments.
pub open spec fn parts_view<E>(expansion: Result<Vec<String>, E>) -> Result<Seq<Seq<char>>, E> {
    match expansion {
        Ok(parts) => Ok(parts.deep_view()),
        Err(error) => Err(error),
    }
}

/// The mathematical value of an expansion into two halves.
pub open spec fn pair_view<E>(expansion: Result<(String, String), E>) -> Result<
    (Seq<char>, Seq<char>),
    E,
> {
    match expansion {
        Ok(pair) => Ok(pair.deep_view()),
        Err(error) => Err(error),
    }
}

/// What splitting on every occurrence makes of checked arguments: the
/// segments, or the containment error at the delimiter argument.
pub open spec fn split_of(arguments: ArgumentsView) -> Result<Seq<Seq<char>>, ContainmentError> {
    if contains(arguments.subject, arguments.delimiter) {
        Ok(segments(arguments.subject, arguments.delimiter))
    } else {
        Err(ContainmentError { location: arguments.delimiter_location })
    }
}

/// What splitting on the first occurrence makes of checked arguments: the
/// two halves, or the containment error at the delimiter argument.
pub open spec fn split_once_of(arguments: ArgumentsView) -> Result<
    (Seq<char>, Seq<char>),
    ContainmentError,
> {
    match halves(arguments.subject, arguments.delimiter) {
        Some(pair) => Ok(pair),
        None => Err(ContainmentError { location: arguments.delimiter_location }),
    }
}

/// The expansion of a `split` invocation, from its lexemes.
pub open spec fn split_expansion(lexemes: Seq<LexemeView>) -> Result<Seq<Seq<char>>, Error> {
    match parsed(lexemes) {
        Err(error) => Err(Error::Syntax(error)),
        Ok(arguments) => match split_of(arguments) {
            Ok(parts) => Ok(parts),
            Err(error) => Err(Error::Containment(error)),
        },
    }
}

/// The expansion of a `split_once` invocation, from its lexemes.
pub open spec fn split_once_expansion(lexemes: Seq<LexemeView>) -> Result<
    (Seq<char>, Seq<char>),
    Error,
> {
    match parsed(lexemes) {
        Err(error) => Err(Error::Syntax(error)),
        Ok(arguments) => match split_once_of(arguments) {
            Ok(pair) => Ok(pair),
            Err(error) => Err(Error::Containment(error)),
        },
    }
}

/// Splits the subject on every occurrence of the delimiter. A subject that
/// lacks the delimiter is an error at the delimiter argument, never a single
/// segment.
pub fn expand_split(arguments: &Arguments) -> (expansion: Result<Vec<String>, ContainmentError>)
    ensures
        parts_view(expansion) == split_of(arguments@),
        expansion is Ok <==> contains(arguments.subject@, arguments.delimiter@),
        expansion matches Ok(parts) ==> {
            &&& join(parts.deep_view(), arguments.delimiter@) == arguments.subject@
            &&& parts.len() >= 2
        },
{
    let subject = arguments.subject.as_str();
    let delimiter = arguments.delimiter.as_str();
    if !text_contains(subject, delimiter) {
        return Err(ContainmentError { location: arguments.delimiter_location });
    }
    Ok(split_text(subject, delimiter))
}

/// Splits the subject at the first occurrence of the delimiter. A subject
/// that lacks the delimiter is an error at the delimiter argument.
pub fn expand_split_once(arguments: &Arguments) -> (expansion: Result<
    (String, String),
    ContainmentError,
>)
    ensures
        pair_view(expansion) == split_once_of(arguments@),
        expansion is Ok <==> contains(arguments.subject@, arguments.delimiter@),
        expansion matches Ok((head, tail)) ==> {
            &&& head@ + arguments.delimiter@ + tail@ == arguments.subject@
            &&& none_before(arguments.subject@, arguments.delimiter@, head@.len() as int)
        },
{
    match split_text_once(arguments.subject.as_str(), arguments.delimiter.as_str()) {
        Some(pair) => Ok(pair),
        None => Err(ContainmentError { location: arguments.delimiter_location }),
    }
}

/// Expands a `split` invocation that has been read: the segments of the
/// subject between the occurrences of the delimiter, in order.
///
/// The lexemes are checked against the grammar first; only a well-formed
/// invocation is tested for containment.
pub fn split_lexemes(lexemes: &Vec<Lexeme>) -> (expansion: Result<Vec<String>, Error>)
    ensures
        parts_view(expansion) == split_expansion(lexemes.deep_view()),
        expansion matches Err(Error::Syntax(_)) <==> !well_formed(lexemes.deep_view()),
        expansion is Ok <==> (parsed(lexemes.deep_view()) matches Ok(arguments) && contains(
            arguments.subject,
            arguments.delimiter,
        )),
        expansion matches Ok(parts) ==> parsed(lexemes.deep_view()) matches Ok(arguments) && {
            &&& join(parts.deep_view(), arguments.delimiter) == arguments.subject
            &&& parts.len() >= 2
        },
{
    match parse_lexemes(lexemes) {
        Err(error) => Err(Error::Syntax(error)),
        Ok(arguments) => match expand_split(&arguments) {
            Ok(parts) => Ok(parts),
            Err(error) => Err(Error::Containment(error)),
        },
    }
}

/// Expands a `split_once` invocation that has been read: what stands before
/// the first occurrence of the delimiter in the subject, and what stands
/// after it.
///
/// The lexemes are checked against the grammar first; only a well-formed
/// invocation is tested for containment.
pub fn split_once_lexemes(lexemes: &Vec<Lexeme>) -> (expansion: Result<(String, String), Error>)
    ensures
        pair_view(expansion) == split_once_expansion(lexemes.deep_view()),
        expansion matches Err(Error::Syntax(_)) <==> !well_formed(lexemes.deep_view()),
        expansion is Ok <==> (parsed(lexemes.deep_view()) matches Ok(arguments) && contains(
            arguments.subject,
            arguments.delimiter,
        )),
        expansion matches Ok((head, tail)) ==> parsed(lexemes.deep_view()) matches Ok(arguments)
            && {
            &&& head@ + arguments.delimiter + tail@ == arguments.subject
            &&& none_before(arguments.subject, arguments.delimiter, head@.len() as int)
        },
{
    match parse_lexemes(lexemes) {
        Err(error) => Err(Error::Syntax(error)),
        Ok(arguments) => match expand_split_once(&arguments) {
            Ok(pair) => Ok(pair),
            Err(error) => Err(Error::Containment(error)),
        },
    }
}

/// Expands `split!(subject, delimiter)` from the tokens of the invocation.
///
/// The expansion is that of a reading of the tokens. Tokens that are not a
/// literal, a comma and a literal are a syntax error however they are read;
/// an expansion that succeeds has at least two segments, and they join to
/// the subject that was read.
pub fn split(tokens: &Vec<Token>) -> (expansion: Result<Vec<String>, Error>)
    ensures
        exists|lexemes: Seq<LexemeView>| #[trigger]
            reading(tokens.deep_view(), lexemes) && parts_view(expansion) == split_expansion(
                lexemes,
            ),
        !shaped(tokens.deep_view()) ==> expansion matches Err(Error::Syntax(_)),
        expansion matches Ok(parts) ==> parts.len() >= 2 && exists|lexemes: Seq<LexemeView>| #[trigger]
            reading(tokens.deep_view(), lexemes) && well_formed(lexemes) && join(
                parts.deep_view(),
                lexemes[2]->Str_0,
            ) == lexemes[0]->Str_0,
{
    let lexemes = lex(tokens);
    proof {
        lemma_well_formed_reading(tokens.deep_view(), lexemes.deep_view());
    }
    split_lexemes(&lexemes)
}

/// Expands `split_once!(subject, delimiter)` from the tokens of the
/// invocation.
///
/// The expansion is that of a reading of the tokens. Tokens that are not a
/// literal, a comma and a literal are a syntax error however they are read;
/// where the expansion succeeds, the head, the delimiter and the tail make
/// up the subject that was read.
pub fn split_once(tokens: &Vec<Token>) -> (expansion: Result<(String, String), Error>)
    ensures
        exists|lexemes: Seq<LexemeView>| #[trigger]
            reading(tokens.deep_view(), lexemes) && pair_view(expansion) == split_once_expansion(
                lexemes,
            ),
        !shaped(tokens.deep_view()) ==> expansion matches Err(Error::Syntax(_)),
        expansion matches Ok((head, tail)) ==> exists|lexemes: Seq<LexemeView>| #[trigger]
            reading(tokens.deep_view(), lexemes) && well_formed(lexemes) && {
                &&& head@ + lexemes[2]->Str_0 + tail@ == lexemes[0]->Str_0
                &&& none_before(lexemes[0]->Str_0, lexemes[2]->Str_0, head@.len() as int)
            },
{
    let lexemes = lex(tokens);
    proof {
        lemma_well_formed_reading(tokens.deep_view(), lexemes.deep_view());
    }
    split_once_lexemes(&lexemes)
}

/// Round trip of `split`: where an invocation expands, its segments joined
/// with the delimiter between them are the subject again, and there are at
/// least two of them.
pub proof fn lemma_split_rejoins(lexemes: Seq<LexemeView>)
    requires
        split_expansion(lexemes) is Ok,
    ensures
        parsed(lexemes) matches Ok(arguments) && split_expansion(lexemes) matches Ok(parts) && {
            &&& parts == segments(arguments.subject, arguments.delimiter)
            &&& join(parts, arguments.delimiter) == arguments.subject
            &&& parts.len() >= 2
        },
{
    let arguments = parsed(lexemes)->Ok_0;
    lemma_join_segments(arguments.subject, arguments.delimiter);
    lemma_segments_of_contained(arguments.subject, arguments.delimiter);
}

/// Round trip of `split_once`: where an invocation expands, the head, the
/// delimiter and the tail make up the subject, and the delimiter stands
/// nowhere in the subject further left than right after the head.
pub proof fn lemma_split_once_rejoins(lexemes: Seq<LexemeView>)
    requires
        split_once_expansion(lexemes) is Ok,
    ensures
        parsed(lexemes) matches Ok(arguments) && split_once_expansion(lexemes) matches Ok(
            (head, tail),
        ) && {
            &&& head + arguments.delimiter + tail == arguments.subject
            &&& none_before(arguments.subject, arguments.delimiter, head.len() as int)
        },
{
    let arguments = parsed(lexemes)->Ok_0;
    lemma_halves_rejoin(arguments.subject, arguments.delimiter);
}

/// The containment gate: a well-formed invocation whose subject lacks the
/// delimiter fails in both operations, with the same containment error at
/// the delimiter argument, and so with no output at all.
pub proof fn lemma_containment_gate(lexemes: Seq<LexemeView>)
    requires
        parsed(lexemes) matches Ok(arguments) && !contains(
            arguments.subject,
            arguments.delimiter,
        ),
    ensures
        split_expansion(lexemes) == Err::<Seq<Seq<char>>, Error>(
            Error::Containment(ContainmentError { location: Location::Token(2) }),
        ),
        split_once_expansion(lexemes) == Err::<(Seq<char>, Seq<char>), Error>(
            Error::Containment(ContainmentError { location: Location::Token(2) }),
        ),
        split_expansion(lexemes)->Err_0.message_text()
            == "delimiter is not contained in the input string"@,
{
}

/// The two operations expand the same invocations and fail alike on the
/// others.
pub proof fn lemma_operations_agree(lexemes: Seq<LexemeView>)
    ensures
        split_expansion(lexemes) is Ok <==> split_once_expansion(lexemes) is Ok,
        split_expansion(lexemes) matches Err(error) ==> split_once_expansion(lexemes) == Err::<
            (Seq<char>, Seq<char>),
            Error,
        >(error),
{
}

/// A malformed invocation is a syntax error in both operations, whatever
/// its literals hold: containment is never looked at.
pub proof fn lemma_malformed_is_syntax_error(lexemes: Seq<LexemeView>)
    requires
        !well_formed(lexemes),
    ensures
        parsed(lexemes) matches Err(error) && {
            &&& split_expansion(lexemes) == Err::<Seq<Seq<char>>, Error>(Error::Syntax(error))
            &&& split_once_expansion(lexemes) == Err::<(Seq<char>, Seq<char>), Error>(
                Error::Syntax(error),
            )
        },
{
}

/// Tokens that are not a literal, a comma and a literal are a syntax error
/// in both operations, however their literals are read.
pub proof fn lemma_unshaped_is_syntax_error(tokens: Seq<TokenView>, lexemes: Seq<LexemeView>)
    requires
        reading(tokens, lexemes),
        !shaped(tokens),
    ensures
        split_expansion(lexemes) matches Err(Error::Syntax(_)),
        split_once_expansion(lexemes) matches Err(Error::Syntax(_)),
{
    lemma_well_formed_reading(tokens, lexemes);
}

/// Determinism: two invocations that read alike have the same expansion, in
/// either operation.
pub proof fn lemma_expansion_deterministic(first: Vec<Lexeme>, second: Vec<Lexeme>)
    requires
        first.deep_view() == second.deep_view(),
    ensures
        split_expansion(first.deep_view()) == split_expansion(second.deep_view()),
        split_once_expansion(first.deep_view()) == split_once_expansion(second.deep_view()),
{
}

} // verus!
