use const_split_str::diagnostic::{ContainmentError, Error};
use const_split_str::expand::{split, split_once};
use const_split_str::token::{Location, Token};

fn invocation(subject: &str, delimiter: &str) -> Vec<Token> {
    vec![
        Token::Literal(subject.to_string()),
        Token::Punct(','),
        Token::Literal(delimiter.to_string()),
    ]
}

#[test]
fn trybuild() {
    let missing = Error::Containment(ContainmentError { location: Location::Token(2) });

    // A delimiter that the subject lacks stops the build.
    assert_eq!(split(&invocation("\"head-tail\"", "\"+\"")), Err(missing));
    assert_eq!(split_once(&invocation("\"head-tail\"", "\"+\"")), Err(missing));
    assert_eq!(missing.message(), "delimiter is not contained in the input string");

    // A delimiter that the subject contains does not.
    assert_eq!(
        split(&invocation("\"head-tail\"", "\"-\"")),
        Ok(vec!["head".to_string(), "tail".to_string()])
    );
    assert_eq!(
        split_once(&invocation("\"head-tail\"", "\"-\"")),
        Ok(("head".to_string(), "tail".to_string()))
    );
}
