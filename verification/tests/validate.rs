use wordcalc::error::{Error, ErrorStruct};
use wordcalc::parse::scan::{find_close_idx, find_open_idx};
use wordcalc::stream::{InputStream, ParseStream};
use wordcalc::token::ParseToken;
use wordcalc::types::{Operator, StartEnd};

fn stream_of(text: &str) -> ParseStream {
    ParseStream::from(&InputStream::from(text)).unwrap()
}

fn complaints(text: &str) -> Vec<ErrorStruct> {
    let stream = stream_of(text);
    match stream.validate() {
        Ok(()) => Vec::new(),
        Err(Error::TokenStream(input, errors)) => {
            assert_eq!(input, InputStream::from(text));
            assert!(!errors.is_empty());
            errors
        }
        Err(other) => panic!("unexpected error {:?}", other),
    }
}

fn complaint(start: usize, end: usize, msg: &str) -> ErrorStruct {
    ErrorStruct::new(StartEnd::from(start, end), msg.to_string())
}

#[test]
fn expressions_pass_validation() {
    for text in [
        "1",
        "-1",
        "(1)",
        "(-1)",
        "1 + (1 - 5)",
        "-((-1 plus 3))",
        "-5+2*3",
        "2*(3+4)/(5-6)",
        "",
    ] {
        assert_eq!(stream_of(text).validate(), Ok(()), "{}", text);
    }
}

#[test]
fn unmatched_open_bracket_is_reported_at_the_bracket() {
    assert_eq!(
        complaints("((1+1)"),
        vec![complaint(0, 1, "Schließende Klammer fehlt")]
    );
    assert_eq!(
        complaints("(1+(2"),
        vec![
            complaint(0, 1, "Schließende Klammer fehlt"),
            complaint(3, 4, "Schließende Klammer fehlt"),
        ]
    );
}

#[test]
fn unmatched_close_bracket_is_reported_at_the_bracket() {
    assert_eq!(
        complaints("(1+1))"),
        vec![complaint(5, 6, "Öffnende Klammer fehlt")]
    );
    assert_eq!(
        complaints(")1("),
        vec![
            complaint(0, 1, "Öffnende Klammer fehlt"),
            complaint(1, 2, "Operand hier nicht möglich"),
            complaint(2, 3, "Schließende Klammer fehlt"),
        ]
    );
}

#[test]
fn a_close_bracket_in_front_does_not_close_a_later_open_bracket() {
    assert_eq!(
        complaints("1)+(2"),
        vec![
            complaint(1, 2, "Öffnende Klammer fehlt"),
            complaint(3, 4, "Schließende Klammer fehlt"),
        ]
    );
}

#[test]
fn operator_without_operand_is_reported_at_the_operator() {
    assert_eq!(
        complaints("1 +"),
        vec![complaint(2, 3, "Operator hat keinen Operanden")]
    );
    assert_eq!(
        complaints("1 + * 2"),
        vec![complaint(2, 3, "Operator hat keinen Operanden")]
    );
    assert_eq!(
        complaints("2 mal -1"),
        vec![complaint(2, 5, "Operator hat keinen Operanden")]
    );
    assert_eq!(
        complaints("-"),
        vec![complaint(0, 1, "Operator hat keinen Operanden")]
    );
    assert_eq!(
        complaints("(1-)"),
        vec![complaint(2, 3, "Operator hat keinen Operanden")]
    );
}

#[test]
fn operator_other_than_minus_in_front_is_misplaced() {
    assert_eq!(
        complaints("+1"),
        vec![complaint(0, 1, "Operator hier nicht möglich")]
    );
    assert_eq!(
        complaints("*"),
        vec![complaint(0, 1, "Operator hier nicht möglich")]
    );
    assert_eq!(
        complaints("durch 2"),
        vec![complaint(0, 5, "Operator hier nicht möglich")]
    );
}

#[test]
fn number_behind_number_or_close_bracket_is_misplaced() {
    assert_eq!(
        complaints("1 2"),
        vec![complaint(2, 3, "Operand hier nicht möglich")]
    );
    assert_eq!(
        complaints("(1) zwei"),
        vec![complaint(4, 8, "Operand hier nicht möglich")]
    );
}

#[test]
fn all_violations_are_collected_in_reading_order() {
    assert_eq!(
        complaints("* 1 2 + ) ("),
        vec![
            complaint(0, 1, "Operator hier nicht möglich"),
            complaint(4, 5, "Operand hier nicht möglich"),
            complaint(6, 7, "Operator hat keinen Operanden"),
            complaint(8, 9, "Öffnende Klammer fehlt"),
            complaint(10, 11, "Schließende Klammer fehlt"),
        ]
    );
}

#[test]
fn streams_that_pass_validation_may_still_have_no_tree() {
    for text in ["()", "(1)(2)", "5(1)", "(*2)"] {
        assert_eq!(stream_of(text).validate(), Ok(()), "{}", text);
    }
}

#[test]
fn find_close_gives_the_partner_of_an_open_bracket() {
    let stream = stream_of("((1)+(2))+(3)");
    assert_eq!(stream.find_close(0), Some(8));
    assert_eq!(stream.find_close(1), Some(3));
    assert_eq!(stream.find_close(5), Some(7));
    assert_eq!(stream.find_close(10), Some(12));
    assert_eq!(stream_of("((1)").find_close(0), None);
    assert_eq!(stream_of("((1)").find_close(1), Some(3));
    assert_eq!(stream_of("(1)").find_close(7), None);
}

#[test]
fn find_close_idx_counts_from_where_it_starts() {
    let stream = stream_of(")((1))");
    let tokens = stream.as_slice();
    assert_eq!(find_close_idx(tokens, 1), Some(5));
    assert_eq!(find_close_idx(tokens, 2), Some(4));
    assert_eq!(find_close_idx(tokens, 3), None);
    assert_eq!(find_close_idx(tokens, 0), Some(4));
    assert_eq!(find_close_idx(tokens, 6), None);
}

#[test]
fn find_open_idx_gives_the_partner_of_a_close_bracket() {
    let stream = stream_of("((1)+(2))+(3))");
    let tokens = stream.as_slice();
    assert_eq!(find_open_idx(tokens, 3), Some(1));
    assert_eq!(find_open_idx(tokens, 7), Some(5));
    assert_eq!(find_open_idx(tokens, 8), Some(0));
    assert_eq!(find_open_idx(tokens, 12), Some(10));
    assert_eq!(find_open_idx(tokens, 13), None);
}

#[test]
fn token_range_is_read_from_every_variant() {
    let range = StartEnd::from(2, 5);
    assert_eq!(ParseToken::Number((1, range)).range(), range);
    assert_eq!(ParseToken::Op((Operator::Divide, range)).range(), range);
    assert_eq!(ParseToken::Open(range).range(), range);
    assert_eq!(ParseToken::Close(range).range(), range);
}
