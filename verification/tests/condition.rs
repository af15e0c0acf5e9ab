use agentgate::clock::Timestamp;
use agentgate::json::Json;
use agentgate::policy::condition::{tokenize, CmpOp, ConditionError, EvalCtx, Expr, Kw, Tok};

fn json(text: &str) -> Json {
    Json::parse(text).unwrap()
}

fn holds_at(condition: &str, arguments: Option<&Json>, hour: u32) -> bool {
    Expr::parse(condition)
        .unwrap()
        .evaluate(&EvalCtx { arguments, hour })
}

fn now_hour() -> u32 {
    Timestamp::now().hour()
}

#[test]
fn field_matches_regex() {
    let expr = Expr::parse("arguments.command matches '(rm -rf)'").unwrap();
    let args = json(r#"{ "command": "rm -rf /" }"#);
    let ctx = EvalCtx { arguments: Some(&args), hour: now_hour() };
    assert!(expr.evaluate(&ctx));

    let args2 = json(r#"{ "command": "ls -la" }"#);
    let ctx2 = EvalCtx { arguments: Some(&args2), hour: now_hour() };
    assert!(!expr.evaluate(&ctx2));
}

#[test]
fn args_contains_pattern() {
    let expr = Expr::parse("arguments contains_pattern '(sk-[a-zA-Z0-9]+)'").unwrap();
    let args = json(r#"{ "key": "sk-abc123" }"#);
    let ctx = EvalCtx { arguments: Some(&args), hour: now_hour() };
    assert!(expr.evaluate(&ctx));
}

#[test]
fn or_combinator() {
    let expr =
        Expr::parse("arguments.cmd matches '(rm)' or arguments.cmd matches '(DROP)'").unwrap();
    let args = json(r#"{ "cmd": "DROP TABLE users" }"#);
    let ctx = EvalCtx { arguments: Some(&args), hour: now_hour() };
    assert!(expr.evaluate(&ctx));
}

#[test]
fn not_combinator() {
    let expr = Expr::parse("not arguments.cmd matches '(safe)'").unwrap();
    let args = json(r#"{ "cmd": "safe_command" }"#);
    let ctx = EvalCtx { arguments: Some(&args), hour: now_hour() };
    assert!(!expr.evaluate(&ctx));
}

#[test]
fn hours_compare() {
    assert!(holds_at("time.hour < 9", None, 8));
    assert!(!holds_at("time.hour < 9", None, 9));
    assert!(holds_at("time.hour > 9", None, 10));
    assert!(!holds_at("time.hour > 9", None, 9));
    assert!(holds_at("time.hour <= 9", None, 9));
    assert!(!holds_at("time.hour <= 9", None, 10));
    assert!(holds_at("time.hour >= 22", None, 22));
    assert!(!holds_at("time.hour >= 22", None, 21));
    assert!(holds_at("time.hour == 0", None, 0));
    assert!(!holds_at("time.hour == 0", None, 1));
}

#[test]
fn and_binds_closer_than_or_and_not_closest() {
    // Read as: false or (true and true).
    assert!(holds_at(
        "time.hour == 1 or time.hour == 2 and not time.hour == 3",
        None,
        2
    ));
    // Read as: (true) or (.. and false), which the parentheses would change.
    assert!(holds_at(
        "time.hour == 1 or time.hour == 1 and time.hour == 2",
        None,
        1
    ));
    assert!(!holds_at(
        "(time.hour == 1 or time.hour == 1) and time.hour == 2",
        None,
        1
    ));
    // `not` takes only what is next to it.
    assert!(!holds_at("not time.hour == 1 and time.hour == 1", None, 1));
    assert!(holds_at("not (time.hour == 1 and time.hour == 2)", None, 1));
    assert!(holds_at("not not time.hour == 1", None, 1));
}

#[test]
fn a_field_that_is_no_text_reads_as_empty() {
    let number = json(r#"{ "n": 7 }"#);
    assert!(!holds_at("arguments.n matches '7'", Some(&number), 0));
    assert!(holds_at("arguments.n matches '^$'", Some(&number), 0));
    assert!(holds_at("arguments.missing matches '^$'", Some(&number), 0));
    assert!(holds_at("arguments.n matches '^$'", None, 0));
    assert!(holds_at("arguments contains_pattern '^$'", None, 0));
    assert!(holds_at(
        r#"arguments contains_pattern '^\{"n":7\}$'"#,
        Some(&number),
        0
    ));
}

#[test]
fn words_are_those_of_unicode() {
    let args = json(r#"{ "größe": "x" }"#);
    assert!(holds_at("arguments.größe matches 'x'", Some(&args), 0));
    assert!(holds_at("arguments._a1 matches '^$'", Some(&args), 0));
    assert!(matches!(
        Expr::parse("arguments.é matches 'x' ×"),
        Err(ConditionError::UnexpectedCharacter { character: '×', position: 24 })
    ));
}

#[test]
fn tokens_of_a_text() {
    let tokens = tokenize("<= < >= > == ( ) . 'a b' 42 x not").unwrap();
    assert_eq!(tokens.len(), 13);
    assert!(matches!(tokens[0], Tok::Cmp(CmpOp::Le)));
    assert!(matches!(tokens[1], Tok::Cmp(CmpOp::Lt)));
    assert!(matches!(tokens[2], Tok::Cmp(CmpOp::Ge)));
    assert!(matches!(tokens[3], Tok::Cmp(CmpOp::Gt)));
    assert!(matches!(tokens[4], Tok::Cmp(CmpOp::Eq)));
    assert!(matches!(tokens[5], Tok::LParen));
    assert!(matches!(tokens[6], Tok::RParen));
    assert!(matches!(tokens[7], Tok::Dot));
    assert!(matches!(&tokens[8], Tok::Str(s) if s == "a b"));
    assert!(matches!(tokens[9], Tok::Num(42)));
    assert!(matches!(&tokens[10], Tok::Ident(s) if s == "x"));
    assert!(matches!(tokens[11], Tok::Kw(Kw::Not)));
    assert!(matches!(tokens[12], Tok::Eof));
}

#[test]
fn each_fault_of_a_condition_is_told() {
    let err = |s: &str| Expr::parse(s).unwrap_err();
    assert!(matches!(
        err("time.hour = 3"),
        ConditionError::ExpectedDoubleEquals { position: 10 }
    ));
    assert!(matches!(
        err("arguments.x matches 'abc"),
        ConditionError::UnterminatedString
    ));
    assert!(matches!(
        err("time.hour < 4294967296"),
        ConditionError::NumberTooLarge
    ));
    assert!(Expr::parse("time.hour < 4294967295").is_ok());
    assert!(Expr::parse("time.hour < 000000000004").is_ok());
    assert!(matches!(
        err("time.hour ! 3"),
        ConditionError::UnexpectedCharacter { character: '!', position: 10 }
    ));
    assert!(matches!(
        err("time.hour < 3 4"),
        ConditionError::TrailingTokens
    ));
    assert!(matches!(
        err("(time.hour < 3"),
        ConditionError::ExpectedClosingParen
    ));
    assert!(matches!(
        err("arguments.'x'"),
        ConditionError::ExpectedFieldName { got: Tok::Str(_) }
    ));
    assert!(matches!(
        err("arguments.x == 'x'"),
        ConditionError::ExpectedMatches
    ));
    assert!(matches!(
        err("arguments.x matches x"),
        ConditionError::ExpectedPatternAfterMatches { got: Tok::Ident(_) }
    ));
    assert!(matches!(
        err("arguments contains_pattern 3"),
        ConditionError::ExpectedPatternAfterContains { got: Tok::Num(3) }
    ));
    assert!(matches!(
        err("arguments matches 'x'"),
        ConditionError::ExpectedDotOrContains { got: Tok::Kw(Kw::Matches) }
    ));
    assert!(matches!(
        err("time hour < 3"),
        ConditionError::ExpectedDotAfterTime
    ));
    assert!(matches!(err("time.x < 3"), ConditionError::ExpectedHour));
    assert!(matches!(
        err("time.hour matches 'x'"),
        ConditionError::ExpectedOperator { got: Tok::Kw(Kw::Matches) }
    ));
    assert!(matches!(
        err("time.hour < 'x'"),
        ConditionError::ExpectedInteger { got: Tok::Str(_) }
    ));
    assert!(matches!(
        err(""),
        ConditionError::UnexpectedToken { got: Tok::Eof }
    ));
    match err("arguments.x matches '('") {
        ConditionError::InvalidRegex { pattern, reason } => {
            assert_eq!(pattern, "(");
            assert!(reason.contains("unclosed group"));
        }
        other => panic!("{other:?}"),
    }
}

#[test]
fn a_condition_can_be_copied() {
    let expr = Expr::parse("not (arguments.x matches 'a' and time.hour < 5)").unwrap();
    let copy = expr.clone();
    let args = json(r#"{"x":"a"}"#);
    for hour in [0, 4, 5, 23] {
        let ctx = EvalCtx { arguments: Some(&args), hour };
        assert_eq!(expr.evaluate(&ctx), copy.evaluate(&ctx));
        assert_eq!(copy.evaluate(&ctx), hour >= 5);
    }
}

#[test]
fn joined_texts_are_read_one_after_the_other() {
    let texts = ["", "time.hour < 6", "not", "'a b'", "12", ">", "( x"];
    for a in texts {
        for b in texts {
            for between in [" ", "\t", "\r", "\n"] {
                let mut want: Vec<String> = tokenize(a)
                    .unwrap()
                    .iter()
                    .map(|t| format!("{t:?}"))
                    .collect();
                want.pop();
                want.extend(tokenize(b).unwrap().iter().map(|t| format!("{t:?}")));
                let got: Vec<String> = tokenize(&format!("{a}{between}{b}"))
                    .unwrap()
                    .iter()
                    .map(|t| format!("{t:?}"))
                    .collect();
                assert_eq!(got, want);
            }
        }
    }
}

#[test]
fn the_author_of_a_condition_is_told_what_is_wrong() {
    let told = |s: &str| Expr::parse(s).unwrap_err().message();
    assert_eq!(told("time.hour = 3"), "Expected '==' at position 10");
    assert_eq!(told("'a"), "Unterminated string literal in condition");
    assert_eq!(told("4294967296"), "number too large to fit in target type");
    assert_eq!(told("not %"), "Unexpected character '%' at position 4");
    assert_eq!(
        told("time.hour < 3 4"),
        "Unexpected trailing tokens in condition"
    );
    assert_eq!(told("(time.hour < 3"), "Expected closing ')'");
    assert_eq!(
        told("arguments.'a\\\""),
        "Unterminated string literal in condition"
    );
    assert_eq!(
        told("arguments.'a\\\"'"),
        r#"Expected field name after 'arguments.', got Str("a\\\"")"#
    );
    assert_eq!(told("arguments.x"), "Expected 'matches' after field path");
    assert_eq!(
        told("arguments.x matches y"),
        r#"Expected quoted pattern after 'matches', got Ident("y")"#
    );
    assert_eq!(
        told("arguments contains_pattern 7"),
        "Expected quoted pattern after 'contains_pattern', got Num(7)"
    );
    let e = Expr::parse("arguments contains_pattern '('").unwrap_err();
    assert!(e.message().starts_with("Invalid regex '(': regex parse error"));
    assert_eq!(
        told("arguments ("),
        "Expected '.' or 'contains_pattern' after 'arguments', got LParen"
    );
    assert_eq!(told("time"), "Expected '.' after 'time'");
    assert_eq!(told("time.x"), "Expected 'hour' after 'time.'");
    assert_eq!(
        told("time.hour."),
        "Expected comparison operator after 'time.hour', got Dot"
    );
    assert_eq!(
        told("time.hour < <="),
        "Expected integer after operator, got Cmp(Le)"
    );
    assert_eq!(
        told("or"),
        "Unexpected token in condition expression: Kw(Or)"
    );
    assert_eq!(told(""), "Unexpected token in condition expression: Eof");
}

#[test]
fn tokens_are_shown_as_they_are_called() {
    for text in ["arguments time hour matches contains_pattern or and not", "< > <= >= ==", "( ) . 'x' y 3"] {
        for t in tokenize(text).unwrap() {
            assert_eq!(t.shown(), format!("{t:?}"));
        }
    }
}

#[test]
fn conditions_may_nest_deeply() {
    let atom = "time.hour < 6";
    let parens = format!("{}{atom}{}", "(".repeat(100_000), ")".repeat(100_000));
    assert!(holds_at(&parens, None, 5));
    assert_eq!(
        Expr::parse(&"(".repeat(100_000)).unwrap_err().message(),
        "Unexpected token in condition expression: Eof"
    );
    let nots = format!("{}{atom}", "not ".repeat(10_001));
    assert!(!holds_at(&nots, None, 5));
    let ors = vec![atom; 10_000].join(" or ");
    let e = Expr::parse(&ors).unwrap().clone();
    assert!(e.evaluate(&EvalCtx { arguments: None, hour: 5 }));
    assert!(!e.evaluate(&EvalCtx { arguments: None, hour: 6 }));
    let mixed = format!(
        "{}{atom}{}",
        "(time.hour > 3 and not ".repeat(1_000),
        ")".repeat(1_000)
    );
    let e = Expr::parse(&mixed).unwrap();
    let copy = e.clone();
    for hour in 0..24 {
        let ctx = EvalCtx { arguments: None, hour };
        assert_eq!(e.evaluate(&ctx), copy.evaluate(&ctx));
        assert_eq!(e.evaluate(&ctx), (4..6).contains(&hour));
    }
}
