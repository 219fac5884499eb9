use ruau::lexer::{parse_token, tokenize};
use ruau::token::{Keywords, Token, TokenType, TokenValue};

fn bare(kind: TokenType) -> Token {
    Token { token_type: kind, value: TokenValue::NoValue }
}

fn name(text: &str) -> Token {
    Token { token_type: TokenType::Identifier, value: TokenValue::Identifier(text.to_string()) }
}

fn call(text: &str) -> Token {
    Token { token_type: TokenType::Function, value: TokenValue::Identifier(text.to_string()) }
}

fn string(text: &str) -> Token {
    Token { token_type: TokenType::String, value: TokenValue::StrValue(text.to_string()) }
}

fn keyword(text: &str) -> Token {
    Token { token_type: TokenType::Keyword, value: TokenValue::Keyword(text.to_string()) }
}

fn integer(number: i32) -> Token {
    Token { token_type: TokenType::Integer, value: TokenValue::IntValue(number) }
}

fn float(text: &str) -> Token {
    Token { token_type: TokenType::Float, value: TokenValue::FloatValue(text.to_string()) }
}

fn boolean(flag: bool) -> Token {
    Token { token_type: TokenType::Boolean, value: TokenValue::BoolValue(flag) }
}

#[test]
fn empty_text_has_no_tokens() {
    assert_eq!(tokenize(""), vec![]);
    assert_eq!(tokenize("   "), vec![]);
    assert_eq!(tokenize("\n\n"), vec![]);
}

#[test]
fn string_literal_becomes_one_string_token() {
    assert_eq!(tokenize("\"abc\""), vec![string("abc")]);
}

#[test]
fn single_quotes_delimit_strings_too() {
    assert_eq!(tokenize("'abc'"), vec![string("abc")]);
    assert_eq!(tokenize("'abc\""), vec![string("abc")]);
}

#[test]
fn empty_string_literal_gives_no_token() {
    assert_eq!(tokenize("\"\""), vec![]);
    assert_eq!(tokenize("a \"\" b"), vec![name("a"), name("b")]);
}

#[test]
fn strings_keep_spaces_and_brackets() {
    assert_eq!(tokenize("\"a b (c) {d}\""), vec![string("a b (c) {d}")]);
}

#[test]
fn semicolon_cuts_a_string_literal() {
    assert_eq!(
        tokenize("\"a;b\""),
        vec![name("a"), bare(TokenType::Semicolon), string("b")]
    );
}

#[test]
fn pending_text_runs_into_a_string_literal() {
    assert_eq!(tokenize("ab\"cd\""), vec![string("abcd")]);
}

#[test]
fn unclosed_string_is_classified_like_any_text() {
    assert_eq!(tokenize("\"abc"), vec![name("abc")]);
    assert_eq!(tokenize("\"42"), vec![integer(42)]);
    assert_eq!(tokenize("\"a b"), vec![name("a b")]);
}

#[test]
fn newline_is_ignored_everywhere() {
    assert_eq!(tokenize("ab\ncd"), vec![name("abcd")]);
    assert_eq!(tokenize("\"ab\ncd\""), vec![string("abcd")]);
    assert_eq!(tokenize("a\n b"), vec![name("a"), name("b")]);
}

#[test]
fn other_white_space_is_part_of_a_name() {
    assert_eq!(tokenize("a\tb"), vec![name("a\tb")]);
    assert_eq!(tokenize("a\rb"), vec![name("a\rb")]);
}

#[test]
fn structural_characters_cut_and_stand_alone() {
    assert_eq!(
        tokenize("a(b){c};"),
        vec![
            name("a"),
            bare(TokenType::LParen),
            name("b"),
            bare(TokenType::RParen),
            bare(TokenType::LBrace),
            name("c"),
            bare(TokenType::RBrace),
            bare(TokenType::Semicolon),
        ]
    );
}

#[test]
fn keyword_fn_is_a_keyword_token() {
    assert_eq!(tokenize("fn"), vec![keyword("fn")]);
    assert_eq!(parse_token("fn"), keyword("fn"));
}

#[test]
fn reserved_words_are_keywords_but_for_the_truth_values() {
    assert_eq!(parse_token("if"), keyword("if"));
    assert_eq!(parse_token("let"), keyword("let"));
    assert_eq!(parse_token("else"), keyword("else"));
    assert_eq!(parse_token("true"), boolean(true));
    assert_eq!(parse_token("false"), boolean(false));
    assert_eq!(parse_token("True"), name("True"));
    assert_eq!(parse_token("fnn"), name("fnn"));
    assert_eq!(parse_token("f"), name("f"));
}

#[test]
fn bang_marks_a_call_name() {
    assert_eq!(tokenize("println!"), vec![call("println!")]);
    assert_eq!(parse_token("a!b"), call("a!b"));
    assert_eq!(parse_token("!"), call("!"));
    assert_eq!(parse_token("42!"), call("42!"));
}

#[test]
fn numbers_are_classified() {
    assert_eq!(tokenize("42"), vec![integer(42)]);
    assert_eq!(tokenize("3.5"), vec![float("3.5")]);
    assert_eq!(tokenize("42x"), vec![name("42x")]);
}

#[test]
fn float_text_denotes_the_number() {
    let tokens = tokenize("3.5");
    assert_eq!(tokens.len(), 1);
    assert_eq!(tokens[0].token_type, TokenType::Float);
    match &tokens[0].value {
        TokenValue::FloatValue(text) => assert_eq!(text.parse::<f32>(), Ok(3.5f32)),
        other => panic!("no float payload: {:?}", other),
    }
}

#[test]
fn integers_have_an_optional_sign_and_32_bits() {
    assert_eq!(parse_token("0"), integer(0));
    assert_eq!(parse_token("-0"), integer(0));
    assert_eq!(parse_token("+5"), integer(5));
    assert_eq!(parse_token("-5"), integer(-5));
    assert_eq!(parse_token("007"), integer(7));
    assert_eq!(parse_token("2147483647"), integer(i32::MAX));
    assert_eq!(parse_token("-2147483648"), integer(i32::MIN));
    assert_eq!(parse_token("00000000000000000000042"), integer(42));
}

#[test]
fn integers_out_of_range_are_floats() {
    assert_eq!(parse_token("2147483648"), float("2147483648"));
    assert_eq!(parse_token("-2147483649"), float("-2147483649"));
    assert_eq!(parse_token("99999999999999999999999999"), float("99999999999999999999999999"));
}

#[test]
fn float_forms_are_floats() {
    for text in ["1.", ".5", "+.5", "-1.5e10", "1e5", "1E-5", "2.5e+3", "inf", "-inf", "+Infinity", "NaN", "nan", "INF"] {
        assert_eq!(parse_token(text), float(text), "{:?}", text);
    }
}

#[test]
fn malformed_numbers_are_names() {
    for text in ["+", "-", ".", "+.", "1e", "e5", "1e+", "1.5.2", "1_000", "0x10", "--1", "1-", "infinit", "na", "1 ", " 1"] {
        assert_eq!(parse_token(text), name(text), "{:?}", text);
    }
}

#[test]
fn empty_text_is_an_empty_name() {
    assert_eq!(parse_token(""), name(""));
}

#[test]
fn unicode_text_is_kept_verbatim() {
    assert_eq!(tokenize("héllo wörld"), vec![name("héllo"), name("wörld")]);
    assert_eq!(tokenize("\"日本語\""), vec![string("日本語")]);
    assert_eq!(parse_token("١٢٣"), name("١٢٣"));
}

#[test]
fn tokens_are_the_same_on_every_run() {
    let source = "fn main() { println!(\"hi\"); let x 42 3.5 true }";
    let first = tokenize(source);
    let second = tokenize(source);
    assert_eq!(first.len(), second.len());
    assert_eq!(first, second);
}

#[test]
fn extra_spaces_between_tokens_change_nothing() {
    let tight = tokenize("fn main(){println!(\"a b\");}");
    let loose = tokenize("  fn   main ( )  {  println! (  \"a b\"  )  ;  }  ");
    assert_eq!(tight, loose);
    assert_eq!(tokenize("a b"), tokenize("a     b"));
    assert_eq!(tokenize("a;b"), tokenize("a ; b"));
}

#[test]
fn extra_spaces_next_to_a_newline_change_nothing() {
    assert_eq!(tokenize("a\n b"), tokenize("a   \n b"));
    assert_eq!(tokenize("a\n"), tokenize("a  \n"));
    assert_eq!(tokenize("a\n\n;"), tokenize("a \n\n;"));
}

#[test]
fn newlines_change_no_token() {
    assert_eq!(tokenize("a\nb"), tokenize("ab"));
    assert_eq!(tokenize("fn main()\n{\n}\n"), tokenize("fn main(){}"));
    assert_eq!(tokenize("\"a\nb\""), tokenize("\"ab\""));
    assert_eq!(tokenize("4\n2"), tokenize("42"));
}

#[test]
fn lexer_never_cuts_a_reserved_kind() {
    let tokens = tokenize("{ } ( ) ; a 1 1.5 true fn x! \"s\" ? # [ ] < > = \\ ");
    assert_eq!(tokens.len(), 20);
    for token in &tokens {
        assert_ne!(token.token_type, TokenType::LCurly);
        assert_ne!(token.token_type, TokenType::RCurly);
        assert_ne!(token.token_type, TokenType::Unknown);
    }
}

#[test]
fn float_tokens_carry_a_text_that_reads_as_a_number() {
    for token in tokenize("1.5 .5 5. 1e9 -2.5E-3 inf NaN 99999999999 +Infinity") {
        assert_eq!(token.token_type, TokenType::Float);
        match &token.value {
            TokenValue::FloatValue(text) => assert!(text.parse::<f32>().is_ok(), "{:?}", text),
            other => panic!("no float payload: {:?}", other),
        }
    }
}

#[test]
fn spaces_inside_a_name_or_a_string_do_change_tokens() {
    assert_ne!(tokenize("ab"), tokenize("a b"));
    assert_ne!(tokenize("\"ab\""), tokenize("\"a b\""));
    assert_ne!(tokenize("ab\"c\""), tokenize("ab \"c\""));
}

#[test]
fn every_token_of_a_text_is_consistent() {
    let tokens = tokenize("fn main() { println!(\"hi\"); let x = 42; 3.5 true if else 'a' }");
    assert_eq!(tokens.len(), 21);
    for token in &tokens {
        assert!(token.is_consistent(), "{:?}", token);
    }
}

#[test]
fn consistency_looks_at_kind_and_payload() {
    assert!(Token::bare(TokenType::LCurly).is_consistent());
    assert!(Token::bare(TokenType::Unknown).is_consistent());
    assert!(call("f!").is_consistent());
    assert!(!Token { token_type: TokenType::String, value: TokenValue::NoValue }.is_consistent());
    assert!(!Token { token_type: TokenType::Semicolon, value: TokenValue::BoolValue(true) }
        .is_consistent());
    assert!(!Token { token_type: TokenType::Integer, value: TokenValue::FloatValue("1.5".to_string()) }
        .is_consistent());
    assert!(!Token { token_type: TokenType::Keyword, value: TokenValue::Identifier("fn".to_string()) }
        .is_consistent());
}

#[test]
fn bare_tokens_carry_no_payload() {
    assert_eq!(Token::bare(TokenType::Semicolon), bare(TokenType::Semicolon));
    assert_eq!(Token::bare(TokenType::RBrace).value, TokenValue::NoValue);
}

#[test]
fn reserved_words_are_found_by_their_text() {
    let all = [
        Keywords::Fn,
        Keywords::If,
        Keywords::Let,
        Keywords::Else,
        Keywords::True,
        Keywords::False,
    ];
    for word in all {
        assert_eq!(Keywords::from_text(word.as_str()), Some(word));
    }
    assert_eq!(Keywords::Fn.as_str(), "fn");
    assert_eq!(Keywords::Else.as_str(), "else");
    assert_eq!(Keywords::from_text("fn"), Some(Keywords::Fn));
    assert_eq!(Keywords::from_text("FN"), None);
    assert_eq!(Keywords::from_text(""), None);
    assert_eq!(Keywords::from_text("elsewhere"), None);
}
