use capi_compiler::tokens::{tokenize, Token};

#[test]
fn tokenize_function_definition() {
    let tokens = tokenize("f: fn \\ a, 1 -> a end ");
    assert_eq!(
        tokens,
        vec![
            Token::FunctionName { name: String::from("f") },
            Token::KeywordFn,
            Token::BranchStart,
            Token::Identifier { name: String::from("a") },
            Token::Delimiter,
            Token::IntegerLiteral { value: 1 },
            Token::BranchBodyStart,
            Token::Identifier { name: String::from("a") },
            Token::KeywordEnd,
        ]
    );
}
