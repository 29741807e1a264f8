use const_split_str::token::Token;

/// The tokens of `(subject, delimiter)`, each argument given by its source text.
fn invocation(subject: &str, delimiter: &str) -> Vec<Token> {
    vec![
        Token::Literal(subject.to_string()),
        Token::Punct(','),
        Token::Literal(delimiter.to_string()),
    ]
}

#[test]
fn split() {
    let parts = const_split_str::split(&invocation("\"head-tail\"", "\"-\"")).unwrap();
    let [head, tail]: [String; 2] = parts.try_into().unwrap();

    assert_eq!(head, "head");
    assert_eq!(tail, "tail");
}

#[test]
fn split_once() {
    let (head, tail) =
        const_split_str::split_once(&invocation("\"head-tail\"", "\"-\"")).unwrap();

    assert_eq!(head, "head");
    assert_eq!(tail, "tail");
}
