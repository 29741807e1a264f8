//! Splitting of literal text whose subject and delimiter are both known
//! before the program runs.
//!
//! An invocation is a sequence of tokens: a string literal to split, a comma,
//! and a string literal to split on. [`split`] expands it to the segments of
//! the subject between the occurrences of the delimiter, [`split_once`] to
//! what stands before and after the first occurrence. An invocation of
//! another shape is a syntax error, and a subject that lacks the delimiter is
//! a containment error at the delimiter argument: a split never comes back
//! as the subject alone.
//!
//! Which text a literal token stands for is asked of `proc_macro2` and
//! `syn`. Everything after that question is [`split_lexemes`] and
//! [`split_once_lexemes`], whose results are fixed by their contracts.
//!
//! - [`token`]: the tokens of an invocation and what the grammar reads in them
//! - [`grammar`]: the shape of an invocation and its two arguments
//! - [`search`]: occurrences of one text in another
//! - [`segments`]: what splitting means, its laws, and the functions on text
//! - [`expand`]: the two operations, from tokens and from lexemes
//! - [`diagnostic`]: the errors, their messages and their places

pub mod diagnostic;
pub mod expand;
pub mod grammar;
pub mod search;
pub mod segments;
pub mod token;

pub use crate::expand::{split, split_lexemes, split_once, split_once_lexemes};
