use wordcalc::calculate;
use wordcalc::error::{Error, ErrorStruct};
use wordcalc::stream::InputStream;
use wordcalc::types::StartEnd;

const MARKS: &str = "\u{204E}\u{204E}\u{204E}\u{204E}\u{204E}\u{204E}\u{204E}\u{204E}";

#[test]
fn renders_the_plain_variants() {
    assert_eq!(Error::Dummy.to_string(), "Dummy Error");
    assert_eq!(
        Error::ReadInput("stream closed".to_string()).to_string(),
        "Fehler beim lesen der Eingabe: stream closed"
    );
    assert_eq!(
        Error::ParseTree("Missing operator".to_string()).to_string(),
        "ParseTree Error: Missing operator"
    );
    assert_eq!(
        Error::ParseNode("Teilen durch Null nicht möglich".to_string()).to_string(),
        "ParseNode Error: Teilen durch Null nicht möglich"
    );
}

#[test]
fn renders_a_caret_line_for_every_diagnostic() {
    let input = InputStream::from("1 + ab");
    let errors = vec![
        ErrorStruct::new(StartEnd::from(4, 6), "unbekanntes Wort".to_string()),
        ErrorStruct::new(StartEnd::from(0, 1), "Operand hier nicht möglich".to_string()),
    ];
    let text = Error::TokenStream(input, errors).to_string();
    let expect = format!(
        "Fehler:\n\r{m} 1 + ab\n\r{pad}    ^^  unbekanntes Wort\n\n\r{m} 1 + ab\n\r{pad}^  Operand hier nicht möglich\n\n\r",
        m = MARKS,
        pad = "         "
    );
    assert_eq!(text, expect);
}

#[test]
fn renders_no_caret_for_an_empty_or_reversed_range() {
    let input = InputStream::from("x");
    let errors = vec![
        ErrorStruct::new(StartEnd::from(2, 2), "a".to_string()),
        ErrorStruct::new(StartEnd::from(3, 1), "b".to_string()),
    ];
    let text = Error::TokenStream(input, errors).to_string();
    let expect = format!(
        "Fehler:\n\r{m} x\n\r{pad}    a\n\n\r{m} x\n\r{pad}     b\n\n\r",
        m = MARKS,
        pad = "         "
    );
    assert_eq!(text, expect);
}

#[test]
fn renders_only_the_heading_without_diagnostics() {
    let text = Error::TokenStream(InputStream::from("1"), Vec::new()).to_string();
    assert_eq!(text, "Fehler:\n\r");
}

#[test]
fn renders_the_input_as_it_was_typed() {
    let err = calculate("1 +\t(Ä").unwrap_err();
    let expect = format!(
        "Fehler:\n\r{m} 1 +\t(Ä\n\r{pad}   ^  Unbekanntes Zeichen\n\n\r{m} 1 +\t(Ä\n\r{pad}     ^  Unbekanntes Zeichen\n\n\r",
        m = MARKS,
        pad = "         "
    );
    assert_eq!(err.to_string(), expect);
}

#[test]
fn renders_validation_failures_under_the_operator() {
    let err = calculate("1 plus").unwrap_err();
    let expect = format!(
        "Fehler:\n\r{m} 1 plus\n\r{pad}  ^^^^  Operator hat keinen Operanden\n\n\r",
        m = MARKS,
        pad = "         "
    );
    assert_eq!(err.to_string(), expect);
}

#[test]
fn unmatched_open_bracket_fails_the_calculation() {
    let err = calculate("((1+1)").unwrap_err();
    assert_eq!(
        err,
        Error::TokenStream(
            InputStream::from("((1+1)"),
            vec![ErrorStruct::new(
                StartEnd::from(0, 1),
                "Schließende Klammer fehlt".to_string()
            )]
        )
    );
}
