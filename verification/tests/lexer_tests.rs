use oscd::diag::DiagKind;
use oscd::lexer::{lex_blob, lex_osc_path, Lexer};
use oscd::token::{Color, MidiMsg, TimeMsg, Token};

fn whole_osc_path(addr: &str) -> bool {
    match lex_osc_path(addr, 0) {
        Some((Token::OSCPath(p), end)) => p == addr && end == addr.chars().count(),
        _ => false,
    }
}

#[test]
fn test_valid_osc_addresses() {
    let valid_osc_addr = [
        "/",
        "/cue/selected/level",
        "/cue/selected/level/0/1/+",
        "/cue/selected/level/0/1/-",
        "/cue/0/{synth,drum}/-",
        "/cue/0/{synth,drum}/.",
        "/cue/0/{synth,drum}/*",
        "/cue/0/[synth]/*",
        "/press/bank/*/1",
        "/press/bank/*/1?",
        "/press/bank/1/",
    ];

    for addr in valid_osc_addr.iter() {
        assert!(whole_osc_path(addr), "address not recognized whole: {}", addr);
        let (tokens, errors) = Lexer::analyse(addr);
        assert_eq!(tokens, vec![Token::OSCPath(addr.to_string()), Token::EOF]);
        assert!(errors.is_empty());
    }
}

#[test]
fn test_invalid_osc_addresses() {
    let invalid_osc_addr = ["+", "#/", ")", " ", "1"];

    for addr in invalid_osc_addr.iter() {
        assert!(!whole_osc_path(addr), "address wrongly recognized: {}", addr);
    }
}

#[test]
fn test_valid_blob() {
    let valid_blob_msg = ["%[0]", "%[10,20,30]", "%[]", "%[255]"];

    for addr in valid_blob_msg.iter() {
        let mut errors = Vec::new();
        let r = lex_blob(addr, 0, &mut errors);
        match r {
            Some((_, end)) => assert_eq!(end, addr.chars().count(), "blob not whole: {}", addr),
            None => panic!("blob not recognized: {}", addr),
        }
    }
}

#[test]
fn test_invalid_blob() {
    let too_large = "number too large to fit in target type, Blob value should be <u8>";
    let invalid_blob_msg = [
        (
            "%[-5,-12,43]",
            vec![("(2..12)", "-5,-12,43]", "Blob value should be <u8>", "Illegal")],
        ),
        (
            "%[257]",
            vec![
                ("(2..5)", "257", too_large, "Blob"),
                ("(0..6)", "%[257]", "Blob value should be <u8>", "Blob"),
            ],
        ),
        ("%[100,200,257]", vec![("(10..13)", "257", too_large, "Blob")]),
        (
            "%['test']",
            vec![("(2..9)", "'test']", "Blob value should be <u8>", "Illegal")],
        ),
    ];
    for (addr, expected_msg) in invalid_blob_msg.iter() {
        let mut errors = Vec::new();
        let _ = lex_blob(addr, 0, &mut errors);
        let got: Vec<(String, String, String, String)> =
            errors.iter().map(|e| e.print_error()).collect();
        let want: Vec<(String, String, String, String)> = expected_msg
            .iter()
            .map(|(a, b, c, d)| (a.to_string(), b.to_string(), c.to_string(), d.to_string()))
            .collect();
        assert_eq!(got, want, "diagnostics differ for {}", addr);
    }
}

#[test]
fn blob_scan_results() {
    let (tokens, errors) = Lexer::analyse("%[10,20,30]");
    assert_eq!(tokens, vec![Token::Blob(vec![10, 20, 30]), Token::EOF]);
    assert!(errors.is_empty());

    let (tokens, errors) = Lexer::analyse("%[257]");
    assert_eq!(
        tokens,
        vec![
            Token::Illegal(Box::new(Token::Blob(vec![]))),
            Token::EOF
        ]
    );
    assert!(errors.len() >= 1);
    assert_eq!((errors[0].start, errors[0].end), (2, 5));
    assert_eq!(errors[0].text, "257");

    let (tokens, errors) = Lexer::analyse("%[-5,-12,43]");
    assert!(matches!(tokens[0], Token::Illegal(_)));
    assert_eq!(tokens.len(), 2);
    assert_eq!(tokens[1], Token::EOF);
    assert!(errors.iter().any(|e| e.text.contains("-5")));
}

#[test]
fn numeric_literal_scans() {
    let (tokens, errors) = Lexer::analyse("123_i64");
    assert_eq!(tokens, vec![Token::Long(123), Token::EOF]);
    assert!(errors.is_empty());

    let (tokens, _) = Lexer::analyse("-123_i64");
    assert_eq!(tokens, vec![Token::Long(-123), Token::EOF]);

    let (tokens, errors) = Lexer::analyse("1.5");
    assert_eq!(tokens, vec![Token::FloatLiteral("1.5".to_string()), Token::EOF]);
    assert!(errors.is_empty());
    match &tokens[0] {
        Token::FloatLiteral(text) => assert_eq!(text.parse::<f32>().unwrap(), 1.5f32),
        _ => unreachable!(),
    }

    let (tokens, _) = Lexer::analyse("1.5_f64");
    assert_eq!(tokens, vec![Token::Double("1.5".to_string()), Token::EOF]);
    match &tokens[0] {
        Token::Double(text) => assert_eq!(text.parse::<f64>().unwrap(), 1.5f64),
        _ => unreachable!(),
    }

    let (tokens, _) = Lexer::analyse("123_f64");
    assert_eq!(tokens, vec![Token::Double("123".to_string()), Token::EOF]);

    let (tokens, _) = Lexer::analyse("12_i32");
    assert_eq!(tokens, vec![Token::IntLiteral(12), Token::EOF]);

    let (tokens, _) = Lexer::analyse("+5 -5");
    assert_eq!(
        tokens,
        vec![Token::IntLiteral(5), Token::IntLiteral(-5), Token::EOF]
    );

    let (tokens, _) = Lexer::analyse("2147483647");
    assert_eq!(tokens, vec![Token::IntLiteral(2147483647), Token::EOF]);

    let (tokens, errors) = Lexer::analyse("2147483648");
    assert!(matches!(tokens[0], Token::Illegal(_)));
    assert_eq!(errors.len(), 1);
}

#[test]
fn reserved_word_scans() {
    let (tokens, errors) = Lexer::analyse("true false Nil Inf");
    assert_eq!(
        tokens,
        vec![
            Token::BoolLiteral(true),
            Token::BoolLiteral(false),
            Token::Nil,
            Token::Inf,
            Token::EOF
        ]
    );
    assert!(errors.is_empty());

    let (tokens, errors) = Lexer::analyse("hello");
    assert_eq!(
        tokens,
        vec![
            Token::Illegal(Box::new(Token::Ident("hello".to_string()))),
            Token::EOF
        ]
    );
    assert_eq!(errors.len(), 1);
    assert_eq!(errors[0].kind, DiagKind::MalformedIdent);
    assert_eq!(
        errors[0].message(),
        "Invalid message: The identity keyword only supports [true, false, Nil, Inf]."
    );
}

#[test]
fn unterminated_string_scan() {
    let (tokens, errors) = Lexer::analyse("\"abc");
    assert!(tokens.iter().all(|t| !matches!(t, Token::StringLiteral(_))));
    assert_eq!(tokens.last(), Some(&Token::EOF));
    assert_eq!(errors.len(), 1);
    assert!(errors[0].message().contains("missing closing"));
}

#[test]
fn string_char_scans() {
    let (tokens, errors) = Lexer::analyse("\"a b\"");
    assert_eq!(tokens, vec![Token::StringLiteral("a b".to_string()), Token::EOF]);
    assert!(errors.is_empty());

    let (tokens, errors) = Lexer::analyse("'A'");
    assert_eq!(tokens, vec![Token::Char('A'), Token::EOF]);
    assert!(errors.is_empty());

    let (tokens, errors) = Lexer::analyse("'1'");
    assert_eq!(tokens, vec![Token::Char('\0'), Token::EOF]);
    assert_eq!(errors.len(), 1);
    assert_eq!(errors[0].kind, DiagKind::CharInvalid);

    let (tokens, errors) = Lexer::analyse("'A");
    assert!(matches!(tokens[0], Token::Illegal(_)));
    assert_eq!(errors.len(), 1);
    assert_eq!(errors[0].kind, DiagKind::MalformedChar);
}

#[test]
fn color_midi_time_scans() {
    let (tokens, errors) = Lexer::analyse("#FF00FF80");
    assert_eq!(
        tokens,
        vec![
            Token::Color(Color { red: 255, green: 0, blue: 255, alpha: 128 }),
            Token::EOF
        ]
    );
    assert!(errors.is_empty());

    let (tokens, _) = Lexer::analyse("~2F14FA4C");
    assert_eq!(
        tokens,
        vec![
            Token::MidiMessage(MidiMsg { port: 0x2F, status: 0x14, data1: 0xFA, data2: 0x4C }),
            Token::EOF
        ]
    );

    let (tokens, _) = Lexer::analyse("@123.456");
    assert_eq!(
        tokens,
        vec![Token::TimeMsg(TimeMsg { seconds: 123, fractional: 456 }), Token::EOF]
    );

    let (tokens, _) = Lexer::analyse("@1_000.5");
    assert_eq!(
        tokens,
        vec![Token::TimeMsg(TimeMsg { seconds: 1000, fractional: 5 }), Token::EOF]
    );

    let (tokens, _) = Lexer::analyse("@12.");
    assert_eq!(
        tokens,
        vec![Token::TimeMsg(TimeMsg { seconds: 12, fractional: 0 }), Token::EOF]
    );

    let (tokens, _) = Lexer::analyse("@99999999999.0");
    assert_eq!(
        tokens,
        vec![Token::TimeMsg(TimeMsg { seconds: 0, fractional: 0 }), Token::EOF]
    );

    let (tokens, errors) = Lexer::analyse("#FF00");
    assert!(matches!(tokens[0], Token::Illegal(_)));
    assert_eq!(errors[0].kind, DiagKind::MalformedColor);
}

#[test]
fn punctuation_scans() {
    let (tokens, errors) = Lexer::analyse("[1,2]");
    assert_eq!(
        tokens,
        vec![
            Token::LBracket,
            Token::IntLiteral(1),
            Token::Comma,
            Token::IntLiteral(2),
            Token::RBracket,
            Token::EOF
        ]
    );
    assert!(errors.is_empty());
}

#[test]
fn empty_input_scans_to_terminal() {
    let (tokens, errors) = Lexer::analyse("");
    assert_eq!(tokens, vec![Token::EOF]);
    assert!(errors.is_empty());

    let (tokens, errors) = Lexer::analyse("   \t  ");
    assert_eq!(tokens, vec![Token::EOF]);
    assert!(errors.is_empty());
}

#[test]
fn token_labels() {
    assert_eq!(Token::Blob(vec![]).label(), "Blob");
    assert_eq!(Token::Illegal(Box::new(Token::Nil)).label(), "Illegal");
    assert_eq!(Token::EOF.label(), "EOF");
    assert_eq!(Token::Char('x').label(), "Char");
}
