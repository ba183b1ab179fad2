use capi_compiler::code::{Expression, Pattern, Value};
use capi_compiler::host::{
    find_host_function_by_name, find_host_function_by_number, Host, HostFunction, HostFunctionList, NoHost,
};
use capi_compiler::intrinsics::IntrinsicFunction;
use capi_compiler::parse::{parse, Tokens};
use capi_compiler::tokens::{parse_i32_chars, tokenize, Buffer, Token};
use capi_compiler::types::{ConcreteSignature, Type};

fn chars(s: &str) -> Vec<char> {
    s.chars().collect()
}

#[test]
fn tokenize_comment_until_end_of_line() {
    let tokens = tokenize("# a comment\nf: fn end ");
    assert_eq!(
        tokens,
        vec![
            Token::Comment { text: String::from(" a comment") },
            Token::FunctionName { name: String::from("f") },
            Token::KeywordFn,
            Token::KeywordEnd,
        ]
    );
}

#[test]
fn tokenize_eager_tokens_without_whitespace() {
    let tokens = tokenize("\\a,b->a ");
    assert_eq!(
        tokens,
        vec![
            Token::BranchStart,
            Token::Identifier { name: String::from("a") },
            Token::Delimiter,
            Token::Identifier { name: String::from("b") },
            Token::BranchBodyStart,
            Token::Identifier { name: String::from("a") },
        ]
    );
}

#[test]
fn tokenize_drops_unfinished_word_at_end() {
    // A word is only taken when something ends it.
    assert_eq!(tokenize("a b"), vec![Token::Identifier { name: String::from("a") }]);
    assert_eq!(tokenize(""), vec![]);
}

#[test]
fn tokenize_integer_literals() {
    assert_eq!(tokenize("-5 +3 12a "), vec![
        Token::IntegerLiteral { value: -5 },
        Token::IntegerLiteral { value: 3 },
        Token::Identifier { name: String::from("12a") },
    ]);
}

#[test]
fn parse_i32_like_std() {
    for s in ["0", "-5", "+3", "2147483647", "-2147483648", "2147483648", "", "-", "+", "1-", "0x1"] {
        assert_eq!(parse_i32_chars(&chars(s)), s.parse::<i32>().ok(), "{s}");
    }
}

#[test]
fn buffer_takes_eager_token_from_end() {
    let mut buffer = Buffer::new();
    buffer.push('a');
    buffer.push('-');
    buffer.push('>');
    assert!(buffer.take_from_end("->"));
    assert!(!buffer.take_from_end("->"));
    assert_eq!(buffer.take(), String::from("a"));
    assert_eq!(buffer.take_if_not_empty(), None);
}

#[test]
fn buffer_takes_keyword_literal_or_identifier() {
    let mut tokens = Vec::new();
    let mut buffer = Buffer::new();
    for word in ["fn", "end", "42", "x"] {
        for ch in word.chars() {
            buffer.push(ch);
        }
        buffer.take_literal_or_keyword_identifier(&mut tokens);
    }
    buffer.take_literal_or_keyword_identifier(&mut tokens);
    assert_eq!(
        tokens,
        vec![
            Token::KeywordFn,
            Token::KeywordEnd,
            Token::IntegerLiteral { value: 42 },
            Token::Identifier { name: String::from("x") },
        ]
    );
}

#[test]
fn tokens_peek_and_take() {
    let mut tokens = Tokens::new(vec![Token::KeywordFn, Token::KeywordEnd]);
    assert_eq!(tokens.peek(), Some(&Token::KeywordFn));
    assert_eq!(tokens.take(), Some(Token::KeywordFn));
    assert_eq!(tokens.take(), Some(Token::KeywordEnd));
    assert_eq!(tokens.peek(), None);
    assert_eq!(tokens.take(), None);
}

#[test]
fn parse_branches_with_patterns_and_comments() {
    let functions = parse(tokenize(
        r"
            f: fn
                \ 0, n ->
                    # comment
                    n 1
            end
        ",
    ));
    assert_eq!(functions.named.len(), 1);
    assert_eq!(functions.named[0].name, "f");
    let branch = &functions.named[0].inner.branches[0];
    assert_eq!(
        branch.parameters,
        vec![Pattern::Literal { value: Value(0) }, Pattern::Identifier { name: String::from("n") }]
    );
    assert_eq!(
        branch.body,
        vec![
            Expression::Comment { text: String::from(" comment") },
            Expression::UnresolvedIdentifier {
                name: String::from("n"),
                is_known_to_be_in_tail_position: false,
                is_known_to_be_call_to_user_defined_function: false,
            },
            Expression::Value(Value(1)),
        ]
    );
}

#[test]
fn parse_tracks_anonymous_functions_by_location() {
    let functions = parse(tokenize(
        r"
            f: fn
                \ ->
                    fn
                        \ ->
                            1
                    end
            end
        ",
    ));
    assert_eq!(functions.named[0].inner.branches[0].body, vec![Expression::UnresolvedLocalFunction]);
    assert_eq!(functions.anonymous.len(), 1);
    assert_eq!(functions.anonymous[0].function.branches[0].body, vec![Expression::Value(Value(1))]);
}

#[test]
fn intrinsic_names_round_trip() {
    for intrinsic in [IntrinsicFunction::AddS8, IntrinsicFunction::Eval, IntrinsicFunction::SubU8Wrap] {
        assert_eq!(IntrinsicFunction::from_name(intrinsic.name()), Some(intrinsic));
    }
    assert_eq!(IntrinsicFunction::from_name("no_such_intrinsic"), None);
    assert!(IntrinsicFunction::Eval.signature().is_none());
    assert_eq!(
        IntrinsicFunction::AddS32.signature(),
        Some(ConcreteSignature { inputs: vec![Type::Number, Type::Number], outputs: vec![Type::Number] })
    );
}

fn host_functions() -> Vec<HostFunction> {
    vec![
        HostFunction {
            name: String::from("a"),
            number: 3,
            signature: ConcreteSignature { inputs: vec![], outputs: vec![] },
        },
        HostFunction {
            name: String::from("b"),
            number: 5,
            signature: ConcreteSignature { inputs: vec![Type::Number], outputs: vec![] },
        },
    ]
}

fn two_functions() -> HostFunctionList {
    HostFunctionList { functions: host_functions() }
}

#[test]
fn host_functions_by_number_and_name() {
    assert_eq!(find_host_function_by_number(host_functions(), 5).map(|f| f.name), Some(String::from("b")));
    assert!(find_host_function_by_number(host_functions(), 4).is_none());
    assert_eq!(find_host_function_by_name(host_functions(), "a").map(|f| f.number), Some(3));
    assert!(find_host_function_by_name(host_functions(), "c").is_none());

    assert_eq!(two_functions().function_by_number(3).map(|f| f.name), Some(String::from("a")));
    assert_eq!(two_functions().function_by_name("b").map(|f| f.number), Some(5));
    assert!(NoHost.function_by_number(0).is_none());
    assert!(NoHost.functions().is_empty());
    assert!(NoHost.function_by_name("a").is_none());
    assert_eq!(two_functions().functions().len(), 2);
}

#[test]
fn tokenize_continues_after_line_break() {
    let a = "f: fn # comment\n";
    let b = "\\ x -> x end ";
    let mut joined = tokenize(a);
    joined.extend(tokenize(b));
    assert_eq!(tokenize(&format!("{a}{b}")), joined);
}

#[test]
fn tokenize_treats_unicode_white_space_as_separator() {
    assert_eq!(
        tokenize("a\u{3000}b\u{85}"),
        vec![Token::Identifier { name: String::from("a") }, Token::Identifier { name: String::from("b") }]
    );
}
