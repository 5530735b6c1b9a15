use lexer::scanner::str_to_token;
use lexer::tokens::{Keyword, LiteralValue, Operator, Token};

#[test]
fn scan_test() {
    assert_eq!(
        str_to_token(
            "let _你好a = \"hello啊\"; let letb = a+123.01; while(true) a = b+a; return a*b;"
        )
        .unwrap(),
        vec![
            Token::Keyword(Keyword::Let),
            Token::Id(String::from("_你好a")),
            Token::Operator(Operator::Assign),
            Token::LiteralValue(LiteralValue::String(String::from("hello啊"))),
            Token::End,
            Token::Keyword(Keyword::Let),
            Token::Id(String::from("letb")),
            Token::Operator(Operator::Assign),
            Token::Id(String::from("a")),
            Token::Operator(Operator::Add),
            Token::LiteralValue(LiteralValue::Number(String::from("123.01"))),
            Token::End,
            Token::Keyword(Keyword::While),
            Token::Operator(Operator::LeftPeren),
            Token::Keyword(Keyword::True),
            Token::Operator(Operator::RightPeren),
            Token::Id(String::from("a")),
            Token::Operator(Operator::Assign),
            Token::Id(String::from("b")),
            Token::Operator(Operator::Add),
            Token::Id(String::from("a")),
            Token::End,
            Token::Keyword(Keyword::Return),
            Token::Id(String::from("a")),
            Token::Operator(Operator::Times),
            Token::Id(String::from("b")),
            Token::End,
        ]
    );
}

#[test]
fn mixed_statement_with_unicode() {
    assert_eq!(
        str_to_token("let _你好a = \"hello啊\"; let letb = a+123.01;").unwrap(),
        vec![
            Token::Keyword(Keyword::Let),
            Token::Id(String::from("_你好a")),
            Token::Operator(Operator::Assign),
            Token::LiteralValue(LiteralValue::String(String::from("hello啊"))),
            Token::End,
            Token::Keyword(Keyword::Let),
            Token::Id(String::from("letb")),
            Token::Operator(Operator::Assign),
            Token::Id(String::from("a")),
            Token::Operator(Operator::Add),
            Token::LiteralValue(LiteralValue::Number(String::from("123.01"))),
            Token::End,
        ]
    );
}

#[test]
fn while_statement() {
    assert_eq!(
        str_to_token("while(true) a = b+a;").unwrap(),
        vec![
            Token::Keyword(Keyword::While),
            Token::Operator(Operator::LeftPeren),
            Token::Keyword(Keyword::True),
            Token::Operator(Operator::RightPeren),
            Token::Id(String::from("a")),
            Token::Operator(Operator::Assign),
            Token::Id(String::from("b")),
            Token::Operator(Operator::Add),
            Token::Id(String::from("a")),
            Token::End,
        ]
    );
}

#[test]
fn comment_only_is_empty() {
    assert_eq!(str_to_token("// comment only").unwrap(), vec![]);
}

#[test]
fn empty_input_is_empty() {
    assert_eq!(str_to_token("").unwrap(), vec![]);
}

#[test]
fn whitespace_and_comments_never_emitted() {
    let tokens = str_to_token("  a \t\r\n // note\n b // tail").unwrap();
    assert_eq!(
        tokens,
        vec![Token::Id(String::from("a")), Token::Id(String::from("b"))]
    );
    for t in &tokens {
        assert_ne!(*t, Token::Empty);
    }
}

#[test]
fn comment_ends_at_newline() {
    assert_eq!(
        str_to_token("a // x = 1\n+ b").unwrap(),
        vec![
            Token::Id(String::from("a")),
            Token::Operator(Operator::Add),
            Token::Id(String::from("b")),
        ]
    );
}

#[test]
fn reserialized_text_tokenizes_the_same() {
    let compact = str_to_token("while(true) a = b+a;").unwrap();
    let spaced = str_to_token("while ( true ) a = b + a ; ").unwrap();
    assert_eq!(compact, spaced);
}

#[test]
fn unknown_char_fault() {
    let e = str_to_token("5 $ 3").unwrap_err();
    assert_eq!(e.reason(), "unknown char");
    assert_eq!(e.line(), 0);
}

#[test]
fn broken_string_on_newline() {
    let e = str_to_token("\"abc\ndef\"").unwrap_err();
    assert_eq!(e.reason(), "broken string");
}

#[test]
fn broken_string_at_end_of_input() {
    let e = str_to_token("\"abc").unwrap_err();
    assert_eq!(e.reason(), "broken string");
}

#[test]
fn unknown_number_second_dot() {
    let e = str_to_token("1.2.3").unwrap_err();
    assert_eq!(e.reason(), "unknown number");
}

#[test]
fn unknown_number_trailing_dot() {
    let e = str_to_token("5.").unwrap_err();
    assert_eq!(e.reason(), "unknown number");
}

#[test]
fn unknown_number_double_dot() {
    let e = str_to_token("1..2").unwrap_err();
    assert_eq!(e.reason(), "unknown number");
}

#[test]
fn compound_operators_win() {
    assert_eq!(
        str_to_token("a==b").unwrap(),
        vec![
            Token::Id(String::from("a")),
            Token::Operator(Operator::Equal),
            Token::Id(String::from("b")),
        ]
    );
    assert_eq!(
        str_to_token("a!=b").unwrap(),
        vec![
            Token::Id(String::from("a")),
            Token::Operator(Operator::Nonequal),
            Token::Id(String::from("b")),
        ]
    );
    assert_eq!(
        str_to_token("a>=b").unwrap(),
        vec![
            Token::Id(String::from("a")),
            Token::Operator(Operator::NotSmaller),
            Token::Id(String::from("b")),
        ]
    );
    assert_eq!(
        str_to_token("a<=b").unwrap(),
        vec![
            Token::Id(String::from("a")),
            Token::Operator(Operator::NotLarger),
            Token::Id(String::from("b")),
        ]
    );
}

#[test]
fn separated_pairs_stay_single() {
    assert_eq!(
        str_to_token("= =").unwrap(),
        vec![
            Token::Operator(Operator::Assign),
            Token::Operator(Operator::Assign),
        ]
    );
    assert_eq!(
        str_to_token("> <").unwrap(),
        vec![
            Token::Operator(Operator::Larger),
            Token::Operator(Operator::Smaller),
        ]
    );
    assert_eq!(
        str_to_token("! =").unwrap(),
        vec![
            Token::Operator(Operator::Not),
            Token::Operator(Operator::Assign),
        ]
    );
    assert_eq!(
        str_to_token("/ 2").unwrap(),
        vec![
            Token::Operator(Operator::Divide),
            Token::LiteralValue(LiteralValue::Number(String::from("2"))),
        ]
    );
}

#[test]
fn every_keyword_resolves() {
    assert_eq!(
        str_to_token("let if else true false for while null func return this super").unwrap(),
        vec![
            Token::Keyword(Keyword::Let),
            Token::Keyword(Keyword::If),
            Token::Keyword(Keyword::Else),
            Token::Keyword(Keyword::True),
            Token::Keyword(Keyword::False),
            Token::Keyword(Keyword::For),
            Token::Keyword(Keyword::While),
            Token::Keyword(Keyword::Null),
            Token::Keyword(Keyword::Func),
            Token::Keyword(Keyword::Return),
            Token::Keyword(Keyword::This),
            Token::Keyword(Keyword::Super),
        ]
    );
}

#[test]
fn keyword_prefix_is_identifier() {
    assert_eq!(
        str_to_token("lets whiles Let").unwrap(),
        vec![
            Token::Id(String::from("lets")),
            Token::Id(String::from("whiles")),
            Token::Id(String::from("Let")),
        ]
    );
}

#[test]
fn every_punctuation_token() {
    assert_eq!(
        str_to_token("( ) [ ] { } . & | + - * / ;").unwrap(),
        vec![
            Token::Operator(Operator::LeftPeren),
            Token::Operator(Operator::RightPeren),
            Token::Operator(Operator::LeftSqket),
            Token::Operator(Operator::RightSqket),
            Token::Operator(Operator::LeftCuket),
            Token::Operator(Operator::RightCuket),
            Token::Operator(Operator::Call),
            Token::Operator(Operator::And),
            Token::Operator(Operator::Or),
            Token::Operator(Operator::Add),
            Token::Operator(Operator::Minus),
            Token::Operator(Operator::Times),
            Token::Operator(Operator::Divide),
            Token::End,
        ]
    );
}

#[test]
fn number_forms() {
    assert_eq!(
        str_to_token("0 123 123.01 0.5").unwrap(),
        vec![
            Token::LiteralValue(LiteralValue::Number(String::from("0"))),
            Token::LiteralValue(LiteralValue::Number(String::from("123"))),
            Token::LiteralValue(LiteralValue::Number(String::from("123.01"))),
            Token::LiteralValue(LiteralValue::Number(String::from("0.5"))),
        ]
    );
    let parsed: f64 = "123.01".parse().unwrap();
    assert_eq!(parsed, 123.01);
}

#[test]
fn leading_dot_is_call_operator() {
    assert_eq!(
        str_to_token(".5").unwrap(),
        vec![
            Token::Operator(Operator::Call),
            Token::LiteralValue(LiteralValue::Number(String::from("5"))),
        ]
    );
}

#[test]
fn number_stops_at_word() {
    assert_eq!(
        str_to_token("1.2a").unwrap(),
        vec![
            Token::LiteralValue(LiteralValue::Number(String::from("1.2"))),
            Token::Id(String::from("a")),
        ]
    );
}

#[test]
fn string_content_kept_verbatim() {
    assert_eq!(
        str_to_token("\"a + b // not a comment\"").unwrap(),
        vec![Token::LiteralValue(LiteralValue::String(String::from(
            "a + b // not a comment"
        )))]
    );
    assert_eq!(
        str_to_token("\"\"").unwrap(),
        vec![Token::LiteralValue(LiteralValue::String(String::new()))]
    );
}
