use oscd::diag::{DiagKind, Error};
use oscd::table::{TableError, TableSuccess};
use oscd::words::{try_into_args, try_into_compound_args, DataType, ParseError};

fn scalar(s: &str) -> (String, DataType) {
    (s.to_string(), DataType::Scalar)
}

fn compound(s: &str) -> (String, DataType) {
    (s.to_string(), DataType::Compound)
}

#[test]
fn words_plain_split() {
    assert_eq!(try_into_args("a b").unwrap(), vec![scalar("a"), scalar("b")]);
    assert_eq!(try_into_args("").unwrap(), Vec::<(String, DataType)>::new());
}

#[test]
fn words_quotes_keep_spaces() {
    assert_eq!(
        try_into_args("'x y' z").unwrap(),
        vec![scalar("x y"), scalar("z")]
    );
    assert_eq!(
        try_into_args("\"a b\" c").unwrap(),
        vec![scalar("a b"), scalar("c")]
    );
}

#[test]
fn words_bracket_groups() {
    assert_eq!(
        try_into_args("[1 2] b").unwrap(),
        vec![compound("1 2"), scalar("b")]
    );
    assert_eq!(try_into_args("[1 2]").unwrap(), vec![compound("[1 2]")]);
}

#[test]
fn words_backslash_handling() {
    assert_eq!(try_into_args("a\\ b").unwrap(), vec![scalar("a b")]);
    assert_eq!(try_into_args("a\\").unwrap(), vec![scalar("a\\")]);
}

#[test]
fn words_unterminated_quote_fails() {
    assert_eq!(try_into_args("'abc"), Err(ParseError));
    assert_eq!(try_into_args("\"abc"), Err(ParseError));
    assert_eq!(try_into_args("[abc"), Err(ParseError));
    assert_eq!(ParseError.message(), "missing closing quote");
}

#[test]
fn compound_words_split() {
    assert_eq!(try_into_compound_args("a").unwrap(), vec![compound("[a]")]);
    assert_eq!(try_into_compound_args("a b"), Err(ParseError));
    assert_eq!(
        try_into_compound_args("a b]").unwrap(),
        vec![scalar("a"), scalar("b")]
    );
    assert_eq!(
        try_into_compound_args("[x y]").unwrap(),
        vec![scalar("x"), scalar("y")]
    );
}

#[test]
fn diagnostic_rendering() {
    let e = Error::new(12, 345, "abc".to_string(), DiagKind::MalformedIdent);
    assert_eq!(
        e.print_error(),
        (
            "(12..345)".to_string(),
            "abc".to_string(),
            "Invalid message: The identity keyword only supports [true, false, Nil, Inf]."
                .to_string(),
            "Ident".to_string()
        )
    );
    let e2 = Error::new(0, 6, "%[257]".to_string(), DiagKind::BlobEmpty);
    assert_eq!(e2.print_error().0, "(0..6)");
    assert_eq!(e2.expected(), "Blob");
}

#[test]
fn table_rows_keep_columns() {
    let row = TableError::new(
        "(0..1)".to_string(),
        "x".to_string(),
        "bad".to_string(),
        "Illegal".to_string(),
    );
    assert_eq!(row.range, "(0..1)");
    assert_eq!(row.input, "x");
    assert_eq!(row.message, "bad");
    assert_eq!(row.msg_type, "Illegal");

    let ok = TableSuccess::new(
        "32".to_string(),
        "/s_new".to_string(),
        "[Int(1)]".to_string(),
    );
    assert_eq!(ok.packet_size, "32");
    assert_eq!(ok.osc_address, "/s_new");
    assert_eq!(ok.osc_message, "[Int(1)]");
}
