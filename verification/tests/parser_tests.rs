use oscd::lexer::Lexer;
use oscd::lower::{parse_message, WireValue};
use oscd::message::{build_packet, Outcome};
use oscd::parser::{Expr, Ident, Literal, Parser, Stmt};
use oscd::stream::Tokens;
use oscd::token::{Color, Token};

fn parse_line(input: &str) -> Result<Vec<Stmt>, oscd::parser::ParseFail> {
    let (tokens, _) = Lexer::analyse(input);
    Parser::parse_tokens(Tokens::new(tokens.as_slice()))
}

#[test]
fn parse_simple_statements() {
    let program = parse_line("/s_new 1 \"x\"").unwrap();
    assert_eq!(
        program,
        vec![
            Stmt::ExprStmt(Expr::Lit(Literal::OscPath("/s_new".to_string()))),
            Stmt::ExprStmt(Expr::Lit(Literal::Int(1))),
            Stmt::ExprStmt(Expr::Lit(Literal::String("x".to_string()))),
        ]
    );
}

#[test]
fn parse_arrays() {
    let program = parse_line("[1,[2,3],[]]").unwrap();
    assert_eq!(
        program,
        vec![Stmt::ExprStmt(Expr::Array(vec![
            Expr::Lit(Literal::Int(1)),
            Expr::Array(vec![Expr::Lit(Literal::Int(2)), Expr::Lit(Literal::Int(3))]),
            Expr::Array(vec![]),
        ]))]
    );
}

#[test]
fn parse_reserved_idents() {
    let program = parse_line("Nil Inf true").unwrap();
    assert_eq!(
        program,
        vec![
            Stmt::ExprStmt(Expr::Ident(Ident("Nil".to_string()))),
            Stmt::ExprStmt(Expr::Ident(Ident("Inf".to_string()))),
            Stmt::ExprStmt(Expr::Lit(Literal::Bool(true))),
        ]
    );
}

#[test]
fn parse_rejects_long_and_double() {
    assert!(parse_line("123_i64").is_err());
    assert!(parse_line("1.5_f64").is_err());
}

#[test]
fn parse_rejects_structural_errors() {
    assert!(parse_line("[1,2").is_err());
    assert!(parse_line("[1,]").is_err());
    assert!(parse_line("]").is_err());
    assert!(parse_line(",").is_err());
    assert!(parse_line("hello").is_err());
}

#[test]
fn parse_empty_input() {
    assert_eq!(parse_line("").unwrap(), Vec::<Stmt>::new());
}

#[test]
fn parse_fails_without_terminal() {
    let tokens = vec![Token::IntLiteral(1)];
    assert!(Parser::parse_tokens(Tokens::new(tokens.as_slice())).is_err());
}

#[test]
fn lowering_values() {
    assert_eq!(
        parse_message(&Expr::Lit(Literal::Int(7))),
        WireValue::Int32(7)
    );
    assert_eq!(
        parse_message(&Expr::Ident(Ident("Nil".to_string()))),
        WireValue::Nil
    );
    assert_eq!(
        parse_message(&Expr::Ident(Ident("Inf".to_string()))),
        WireValue::Infinity
    );
    assert_eq!(
        parse_message(&Expr::Ident(Ident("other".to_string()))),
        WireValue::String("other".to_string())
    );
    assert_eq!(
        parse_message(&Expr::Lit(Literal::Color(Color {
            red: 1,
            green: 2,
            blue: 3,
            alpha: 4
        }))),
        WireValue::Color(Color { red: 1, green: 2, blue: 3, alpha: 4 })
    );
    assert_eq!(
        parse_message(&Expr::Array(vec![
            Expr::Lit(Literal::Int(1)),
            Expr::Array(vec![Expr::Lit(Literal::Bool(false))]),
        ])),
        WireValue::Array(vec![
            WireValue::Int32(1),
            WireValue::Array(vec![WireValue::Bool(false)]),
        ])
    );
}

#[test]
fn lowering_is_deterministic() {
    let make = || {
        Expr::Array(vec![
            Expr::Lit(Literal::Int(1)),
            Expr::Array(vec![
                Expr::Lit(Literal::Float("2.5".to_string())),
                Expr::Ident(Ident("Nil".to_string())),
            ]),
            Expr::Lit(Literal::String("x".to_string())),
        ])
    };
    let first = parse_message(&make());
    let second = parse_message(&make());
    assert_eq!(first, second);
}

#[test]
fn end_to_end_message() {
    let outcome = build_packet("/s_new \"default\" 1002 'A' \"freq\" 12.4 [1,2,3]");
    match outcome {
        Outcome::Packet(path, args) => {
            assert_eq!(path, "/s_new");
            assert_eq!(
                args,
                vec![
                    WireValue::String("default".to_string()),
                    WireValue::Int32(1002),
                    WireValue::Char('A'),
                    WireValue::String("freq".to_string()),
                    WireValue::Float32("12.4".to_string()),
                    WireValue::Array(vec![
                        WireValue::Int32(1),
                        WireValue::Int32(2),
                        WireValue::Int32(3),
                    ]),
                ]
            );
            match &args[4] {
                WireValue::Float32(text) => {
                    assert_eq!(text.parse::<f32>().unwrap(), 12.4f32)
                },
                _ => unreachable!(),
            }
        },
        _ => panic!("expected a packet"),
    }
}

#[test]
fn end_to_end_bare_word_is_diagnosed() {
    let outcome = build_packet("/s_new \"default\" 1002 'A' freq 12.4 [1,2,3]");
    match outcome {
        Outcome::Diagnostics(errs) => {
            assert!(!errs.is_empty());
            assert!(errs[0].text.starts_with("freq"));
        },
        _ => panic!("expected diagnostics for the bare word"),
    }
}

#[test]
fn end_to_end_address_contract() {
    assert_eq!(build_packet("1002 2"), Outcome::AddressError);
    match build_packet("") {
        Outcome::Diagnostics(errs) => assert!(errs.is_empty()),
        _ => panic!("expected the empty-diagnostics report"),
    }
    match build_packet("%[257]") {
        Outcome::Diagnostics(errs) => assert!(!errs.is_empty()),
        _ => panic!("expected diagnostics"),
    }
}

#[test]
fn token_stream_slicing() {
    let tokens = vec![
        Token::IntLiteral(1),
        Token::Comma,
        Token::IntLiteral(2),
        Token::EOF,
    ];
    let ts = Tokens::new(tokens.as_slice());
    assert_eq!(ts.input_len(), 4);
    let first_two = ts.take(2);
    assert_eq!(first_two.tok, &tokens[0..2]);
    assert_eq!((first_two.start, first_two.end), (0, 2));
    let (rest, taken) = ts.take_split(1);
    assert_eq!(taken.tok, &tokens[0..1]);
    assert_eq!(rest.tok, &tokens[1..4]);
}
