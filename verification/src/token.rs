//! The tokens of an invocation, and what the grammar sees of them.
//!
//! An invocation arrives as a sequence of tokens. A literal token is kept by
//! its source text, quotes and escapes included; whether that text is a
//! string literal, and which text it stands for, is decided by the token
//! libraries `proc_macro2` and `syn`. What they answer is taken as it comes:
//! everything after it works on lexemes, and is proved for every answer.

use vstd::prelude::*;

verus! {

/// Where a diagnostic points: at one token of the invocation, counted from
/// zero, or at the invocation as a whole.
#[derive(Clone, Copy, Debug, PartialEq, Eq, Structural)]
pub enum Location {
    Token(usize),
    CallSite,
}

/// One token of an invocation.
#[derive(Clone, Debug, PartialEq, Eq)]
pub enum Token {
    /// A literal, by its source text: `"a\tb"`, `r"a"`, `17`, `'x'`.
    Literal(String),
    /// A single punctuation character.
    Punct(char),
    /// An identifier, a bracketed group, or anything else.
    Other,
}

/// The mathematical value of a `Token`.
pub enum TokenView {
    Literal(Seq<char>),
    Punct(char),
    Other,
}

impl View for Token {
    type V = TokenView;

    open spec fn view(&self) -> TokenView {
        match self {
            Token::Literal(source) => TokenView::Literal(source@),
            Token::Punct(c) => TokenView::Punct(*c),
            Token::Other => TokenView::Other,
        }
    }
}

impl DeepView for Token {
    type V = TokenView;

    open spec fn deep_view(&self) -> TokenView {
        self.view()
    }
}

/// A token as the grammar reads it.
#[derive(Clone, Debug, PartialEq, Eq)]
pub enum Lexeme {
    /// A string literal, by the text it stands for.
    Str(String),
    /// The punctuation `,`.
    Comma,
    /// Any other token.
    Other,
}

/// The mathematical value of a `Lexeme`.
pub enum LexemeView {
    Str(Seq<char>),
    Comma,
    Other,
}

impl View for Lexeme {
    type V = LexemeView;

    open spec fn view(&self) -> LexemeView {
        match self {
            Lexeme::Str(text) => LexemeView::Str(text@),
            Lexeme::Comma => LexemeView::Comma,
            Lexeme::Other => LexemeView::Other,
        }
    }
}

impl DeepView for Lexeme {
    type V = LexemeView;

    open spec fn deep_view(&self) -> LexemeView {
        self.view()
    }
}

/// Asks the token libraries for the text of a string literal:
/// `proc_macro2::Literal`'s `FromStr` reads `source` as one literal token,
/// `syn::Lit::new` tells which kind of literal it is, and
/// `syn::LitStr::value` gives the text of a string literal. `None` where
/// `source` is no literal or a literal of another kind.
///
/// Nothing is claimed of the answer: inside a macro expansion the compiler
/// reads the literal, elsewhere `proc_macro2` does, and the two need not
/// agree on every text.
#[verifier::external_body]
fn literal_value(source: &str) -> (value: Option<String>) {
    match source.parse::<proc_macro2::Literal>() {
        Ok(literal) => match syn::Lit::new(literal) {
            syn::Lit::Str(text) => Some(text.value()),
            _ => None,
        },
        Err(_) => None,
    }
}

/// `lexeme` is a way for the grammar to read `token`. A literal is a string
/// literal with some text, or something else; a comma is a comma; no other
/// token is either of the two.
pub open spec fn reads_as(token: TokenView, lexeme: LexemeView) -> bool {
    match token {
        TokenView::Literal(_) => lexeme is Str || lexeme is Other,
        TokenView::Punct(c) => lexeme == if c == ',' {
            LexemeView::Comma
        } else {
            LexemeView::Other
        },
        TokenView::Other => lexeme is Other,
    }
}

/// `lexemes` is a way to read `tokens`: one lexeme for each token, in order.
pub open spec fn reading(tokens: Seq<TokenView>, lexemes: Seq<LexemeView>) -> bool {
    &&& lexemes.len() == tokens.len()
    &&& forall|i: int| 0 <= i < tokens.len() ==> reads_as(#[trigger] tokens[i], lexemes[i])
}

/// Reads one token for the grammar. Which text a string literal stands for,
/// and whether a literal is one at all, is as the token libraries say.
pub fn classify(token: &Token) -> (lexeme: Lexeme)
    ensures
        reads_as(token@, lexeme@),
{
    match token {
        Token::Literal(source) => match literal_value(source.as_str()) {
            Some(text) => Lexeme::Str(text),
            None => Lexeme::Other,
        },
        Token::Punct(c) => if *c == ',' {
            Lexeme::Comma
        } else {
            Lexeme::Other
        },
        Token::Other => Lexeme::Other,
    }
}

/// Reads the tokens of an invocation for the grammar, in order.
pub fn lex(tokens: &Vec<Token>) -> (lexemes: Vec<Lexeme>)
    ensures
        reading(tokens.deep_view(), lexemes.deep_view()),
{
    let mut lexemes: Vec<Lexeme> = Vec::new();
    let mut i: usize = 0;
    while i < tokens.len()
        invariant
            i <= tokens.len(),
            lexemes.len() == i,
            forall|k: int| 0 <= k < i ==> reads_as(#[trigger] tokens[k]@, lexemes[k]@),
        decreases tokens.len() - i,
    {
        lexemes.push(classify(&tokens[i]));
        i += 1;
    }
    lexemes
}

} // verus!
