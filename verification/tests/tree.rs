use wordcalc::calculate;
use wordcalc::error::Error;
use wordcalc::parse::scan::scan;
use wordcalc::parse::tree::ValueError;
use wordcalc::parse::{ParseNode, ParseTree};
use wordcalc::stream::{InputStream, ParseStream};
use wordcalc::token::ParseToken;
use wordcalc::types::{Operator, ParseOperator, ParseOperatorKind, StartEnd};

fn tokens_of(text: &str) -> Vec<ParseToken> {
    ParseStream::from(&InputStream::from(text))
        .unwrap()
        .as_slice()
        .to_vec()
}

fn tree_of(text: &str) -> Result<ParseTree, Error> {
    ParseTree::from(&tokens_of(text))
}

fn leaf(n: i128) -> ParseTree {
    ParseTree::Number(n)
}

fn node(operator: Operator, left: ParseTree, right: ParseTree) -> ParseTree {
    ParseTree::Node(Box::new(ParseNode {
        operator,
        left: Box::new(left),
        right: Box::new(right),
    }))
}

fn refused(msg: &str) -> Result<ParseTree, Error> {
    Err(Error::ParseTree(msg.to_string()))
}

#[test]
fn one_number_is_a_leaf() {
    assert_eq!(tree_of("7"), Ok(leaf(7)));
}

#[test]
fn minus_and_number_is_a_negative_leaf() {
    assert_eq!(tree_of("-7"), Ok(leaf(-7)));
    assert_eq!(tree_of("-0"), Ok(leaf(0)));
}

#[test]
fn negating_the_least_number_does_not_wrap() {
    let range = StartEnd::from(0, 1);
    let tokens = [
        ParseToken::Op((Operator::Minus, range)),
        ParseToken::Number((i64::MIN, range)),
    ];
    assert_eq!(ParseTree::from(&tokens), Ok(leaf(9223372036854775808)));
}

#[test]
fn the_largest_number_and_its_negative_are_leaves() {
    assert_eq!(tree_of("9223372036854775807"), Ok(leaf(i64::MAX as i128)));
    assert_eq!(
        tree_of("-9223372036854775807"),
        Ok(leaf(-(i64::MAX as i128)))
    );
}

#[test]
fn brackets_around_an_operand_are_dropped() {
    assert_eq!(tree_of("(7)"), Ok(leaf(7)));
    assert_eq!(tree_of("((7))"), Ok(leaf(7)));
    assert_eq!(tree_of("(-7)"), Ok(leaf(-7)));
    assert_eq!(tree_of("(((-7)))"), Ok(leaf(-7)));
    assert_eq!(
        tree_of("((1+2))"),
        Ok(node(Operator::Plus, leaf(1), leaf(2)))
    );
}

#[test]
fn times_binds_stronger_than_plus() {
    assert_eq!(
        tree_of("5+2*3"),
        Ok(node(
            Operator::Plus,
            leaf(5),
            node(Operator::Multiply, leaf(2), leaf(3))
        ))
    );
    assert_eq!(
        tree_of("5*2+3"),
        Ok(node(
            Operator::Plus,
            node(Operator::Multiply, leaf(5), leaf(2)),
            leaf(3)
        ))
    );
}

#[test]
fn equal_operators_group_from_the_left() {
    assert_eq!(
        tree_of("5-3+1"),
        Ok(node(
            Operator::Plus,
            node(Operator::Minus, leaf(5), leaf(3)),
            leaf(1)
        ))
    );
    assert_eq!(
        tree_of("8/4*2"),
        Ok(node(
            Operator::Multiply,
            node(Operator::Divide, leaf(8), leaf(4)),
            leaf(2)
        ))
    );
}

#[test]
fn operators_in_brackets_are_passed_over() {
    assert_eq!(
        tree_of("(5+2)*2"),
        Ok(node(
            Operator::Multiply,
            node(Operator::Plus, leaf(5), leaf(2)),
            leaf(2)
        ))
    );
    assert_eq!(
        tree_of("(1)+(2)"),
        Ok(node(Operator::Plus, leaf(1), leaf(2)))
    );
    assert_eq!(
        tree_of("2*(3-(4+5))"),
        Ok(node(
            Operator::Multiply,
            leaf(2),
            node(
                Operator::Minus,
                leaf(3),
                node(Operator::Plus, leaf(4), leaf(5))
            )
        ))
    );
}

#[test]
fn leading_minus_subtracts_from_zero() {
    assert_eq!(
        tree_of("-(1)"),
        Ok(node(Operator::Minus, leaf(0), leaf(1)))
    );
    assert_eq!(
        tree_of("-2*3"),
        Ok(node(
            Operator::Minus,
            leaf(0),
            node(Operator::Multiply, leaf(2), leaf(3))
        ))
    );
    assert_eq!(
        tree_of("-5+2*3"),
        Ok(node(
            Operator::Plus,
            leaf(-5),
            node(Operator::Multiply, leaf(2), leaf(3))
        ))
    );
}

#[test]
fn tree_errors_name_what_is_wrong() {
    assert_eq!(tree_of(""), refused("Missing operand"));
    assert_eq!(tree_of("+"), refused("Expect number variant"));
    assert_eq!(tree_of("("), refused("Expect number variant"));
    assert_eq!(tree_of("()"), refused("Invalid prefix operator"));
    assert_eq!(tree_of("1 2"), refused("Invalid prefix operator"));
    assert_eq!(tree_of("*2"), refused("Invalid prefix operator"));
    assert_eq!(tree_of("-("), refused("Expect number variant"));
    assert_eq!(tree_of("1 2 3"), refused("Missing operator"));
    assert_eq!(tree_of("(1)(2)"), refused("Missing operator"));
    assert_eq!(tree_of("((1)"), refused("Unbalanced parentheses"));
    assert_eq!(tree_of("(1))"), refused("Unbalanced parentheses"));
    assert_eq!(tree_of(")1+2("), refused("Unbalanced parentheses"));
    assert_eq!(tree_of("1+2+"), refused("Missing operand"));
    assert_eq!(tree_of("*1+2"), refused("Invalid prefix operator"));
    assert_eq!(tree_of("+(1)"), refused("Missing operand"));
    assert_eq!(tree_of("*(1)"), refused("Missing operand"));
    assert_eq!(tree_of("(())"), refused("Invalid prefix operator"));
    assert_eq!(tree_of("((()))"), refused("Invalid prefix operator"));
    assert_eq!(tree_of("1+()+2"), refused("Invalid prefix operator"));
}

#[test]
fn the_error_of_the_left_operand_comes_first() {
    assert_eq!(tree_of("(+)+()"), refused("Expect number variant"));
    assert_eq!(tree_of("1+(+)"), refused("Expect number variant"));
}

#[test]
fn node_from_gives_the_node_at_the_split() {
    let tokens = tokens_of("(1+2*3)");
    let got = ParseNode::from(&tokens).unwrap();
    assert_eq!(got.operator, Operator::Plus);
    assert_eq!(*got.left, leaf(1));
    assert_eq!(*got.right, node(Operator::Multiply, leaf(2), leaf(3)));
}

#[test]
fn node_from_has_no_node_for_a_leaf() {
    assert_eq!(
        ParseNode::from(&tokens_of("7")),
        Err(Error::ParseTree("Missing operator".to_string()))
    );
    assert_eq!(
        ParseNode::from(&tokens_of("(7)")),
        Err(Error::ParseTree("Missing operator".to_string()))
    );
    assert_eq!(
        ParseNode::from(&tokens_of("(7")),
        Err(Error::ParseTree("Unbalanced parentheses".to_string()))
    );
}

#[test]
fn node_from_makes_a_node_of_a_signed_number() {
    let got = ParseNode::from(&tokens_of("-7")).unwrap();
    assert_eq!(got.operator, Operator::Minus);
    assert_eq!(*got.left, leaf(0));
    assert_eq!(*got.right, leaf(7));
}

#[test]
fn scan_finds_balance_enclosure_and_split() {
    let found = scan(&tokens_of("(1+2)*3-4/(5)"));
    assert!(found.balanced);
    assert!(!found.enclosed);
    assert!(!found.split.is_none());
    assert_eq!(found.split.idx(), 7);
    assert_eq!(found.split.kind(), Operator::Minus);

    let found = scan(&tokens_of("(1+2)"));
    assert!(found.balanced);
    assert!(found.enclosed);
    assert!(found.split.is_none());

    let found = scan(&tokens_of("2*3/4"));
    assert_eq!(found.split.idx(), 3);
    assert_eq!(found.split.kind(), Operator::Divide);

    assert!(!scan(&tokens_of("(1")).balanced);
    assert!(!scan(&tokens_of("1)")).balanced);
    let found = scan(&tokens_of(""));
    assert!(found.balanced);
    assert!(!found.enclosed);
    assert!(found.split.is_none());
}

#[test]
fn find_operators_gives_first_and_second_operator() {
    assert_eq!(
        ParseNode::find_operators(&tokens_of("1+2")),
        (Operator::Plus, None)
    );
    assert_eq!(
        ParseNode::find_operators(&tokens_of("1-2*3")),
        (Operator::Minus, Some((Operator::Multiply, 3)))
    );
    assert_eq!(
        ParseNode::find_operators(&tokens_of("1*(2+3)")),
        (Operator::Multiply, None)
    );
    assert_eq!(
        ParseNode::find_operators(&tokens_of("1*(2+(3))/4")),
        (Operator::Multiply, Some((Operator::Divide, 9)))
    );
}

#[test]
fn parse_operator_records_the_last_set() {
    let mut op = ParseOperator::new();
    assert!(op.is_none());
    assert_eq!(op.idx(), 0);
    op.set(4, Operator::Divide);
    assert!(!op.is_none());
    assert_eq!(op.idx(), 4);
    assert_eq!(op.kind(), Operator::Divide);
    op.set(2, Operator::Plus);
    assert_eq!(op.idx(), 2);
    assert_eq!(op.kind(), Operator::Plus);
    assert_ne!(ParseOperatorKind::Strong, ParseOperatorKind::Week);
}

#[test]
fn start_end_keeps_both_offsets() {
    let range = StartEnd::from(3, 9);
    assert_eq!(range.start, 3);
    assert_eq!(range.end, 9);
}

#[test]
fn prints_leaves_and_nodes_in_brackets() {
    assert_eq!(leaf(0).print(), "0");
    assert_eq!(leaf(7).print(), "7");
    assert_eq!(leaf(1234567890).print(), "1234567890");
    assert_eq!(leaf(-5).print(), "(0-5)");
    assert_eq!(leaf(-120).print(), "(0-120)");
    assert_eq!(
        leaf(i128::MIN).print(),
        "(0-170141183460469231731687303715884105728)"
    );
    assert_eq!(
        leaf(i128::MAX).print(),
        "170141183460469231731687303715884105727"
    );
    assert_eq!(node(Operator::Plus, leaf(1), leaf(2)).print(), "(1+2)");
    assert_eq!(node(Operator::Minus, leaf(1), leaf(-2)).print(), "(1-(0-2))");
    assert_eq!(
        node(Operator::Multiply, leaf(1), leaf(2)).print(),
        "(1\u{d7}2)"
    );
    assert_eq!(
        node(
            Operator::Divide,
            node(Operator::Plus, leaf(10), leaf(2)),
            leaf(3)
        )
        .print(),
        "((10+2)\u{f7}3)"
    );
    let tokens = tokens_of("1+2");
    assert_eq!(ParseNode::from(&tokens).unwrap().print(), "(1+2)");
}

#[test]
fn integer_value_of_sums_products_and_exact_quotients() {
    assert_eq!(tree_of("1 + (1 - 5)").unwrap().evaluate_integer(), Ok(-3));
    assert_eq!(tree_of("5+2*3").unwrap().evaluate_integer(), Ok(11));
    assert_eq!(tree_of("5-3+1").unwrap().evaluate_integer(), Ok(3));
    assert_eq!(tree_of("(5+2)*2").unwrap().evaluate_integer(), Ok(14));
    assert_eq!(tree_of("-((-1 plus 3))").unwrap().evaluate_integer(), Ok(-2));
    assert_eq!(tree_of("-5+2*3").unwrap().evaluate_integer(), Ok(1));
    assert_eq!(tree_of("-7/7").unwrap().evaluate_integer(), Ok(-1));
    assert_eq!(tree_of("(-8)/(-2)").unwrap().evaluate_integer(), Ok(4));
    assert_eq!(tree_of("8/(-2)").unwrap().evaluate_integer(), Ok(-4));
    assert_eq!(tree_of("(-9)/3").unwrap().evaluate_integer(), Ok(-3));
    assert_eq!(tree_of("0/5").unwrap().evaluate_integer(), Ok(0));
    assert_eq!(
        tree_of("eins plus (minus drei mal 6) durch 2 minus (drei mal 4)")
            .unwrap()
            .evaluate_integer(),
        Ok(-20)
    );
    let tokens = tokens_of("6*7");
    assert_eq!(ParseNode::from(&tokens).unwrap().evaluate_integer(), Ok(42));
}

#[test]
fn integer_value_errors() {
    assert_eq!(
        tree_of("1/0").unwrap().evaluate_integer(),
        Err(ValueError::DivisionByZero)
    );
    assert_eq!(
        tree_of("1/(2-2)").unwrap().evaluate_integer(),
        Err(ValueError::DivisionByZero)
    );
    assert_eq!(
        tree_of("7/2").unwrap().evaluate_integer(),
        Err(ValueError::Fraction)
    );
    assert_eq!(
        tree_of("(-7)/2").unwrap().evaluate_integer(),
        Err(ValueError::Fraction)
    );
    assert_eq!(
        tree_of("9223372036854775807+1").unwrap().evaluate_integer(),
        Err(ValueError::Overflow)
    );
    assert_eq!(
        tree_of("0-9223372036854775807-2").unwrap().evaluate_integer(),
        Err(ValueError::Overflow)
    );
    assert_eq!(
        tree_of("4294967296*4294967296").unwrap().evaluate_integer(),
        Err(ValueError::Overflow)
    );
    assert_eq!(
        leaf(9223372036854775808).evaluate_integer(),
        Err(ValueError::Overflow)
    );
    assert_eq!(
        node(Operator::Divide, leaf(i64::MIN as i128), leaf(-1)).evaluate_integer(),
        Err(ValueError::Overflow)
    );
    assert_eq!(
        tree_of("(1/0)+(1/2)").unwrap().evaluate_integer(),
        Err(ValueError::DivisionByZero)
    );
    assert_eq!(
        tree_of("(1/2)+(1/0)").unwrap().evaluate_integer(),
        Err(ValueError::Fraction)
    );
}

#[test]
fn integer_value_reaches_both_ends_of_64_bits() {
    assert_eq!(
        tree_of("9223372036854775807").unwrap().evaluate_integer(),
        Ok(i64::MAX)
    );
    assert_eq!(
        tree_of("0-9223372036854775807-1").unwrap().evaluate_integer(),
        Ok(i64::MIN)
    );
    assert_eq!(leaf(-9223372036854775808).evaluate_integer(), Ok(i64::MIN));
}

#[test]
fn printed_sums_and_differences_read_back_with_the_same_value() {
    let trees = vec![
        leaf(0),
        leaf(12),
        leaf(-12),
        leaf(i64::MAX as i128),
        leaf(-(i64::MAX as i128)),
        node(Operator::Plus, leaf(1), leaf(-2)),
        node(
            Operator::Minus,
            node(Operator::Plus, leaf(-5), leaf(30)),
            node(Operator::Minus, leaf(7), leaf(-100)),
        ),
    ];
    for tree in trees {
        let (read, text) = calculate(&tree.print()).unwrap();
        assert_eq!(read.evaluate_integer(), tree.evaluate_integer());
        assert_eq!(read.print(), text);
    }
    let (read, _) = calculate(&node(Operator::Plus, leaf(1), leaf(-2)).print()).unwrap();
    assert_eq!(
        read,
        node(
            Operator::Plus,
            leaf(1),
            node(Operator::Minus, leaf(0), leaf(2))
        )
    );
}

#[test]
fn printed_products_do_not_read_back() {
    let text = node(Operator::Multiply, leaf(2), leaf(3)).print();
    assert!(matches!(calculate(&text), Err(Error::TokenStream(_, _))));
}

#[test]
fn well_formed_streams_have_a_tree() {
    for text in [
        "1",
        "-1",
        "(1)",
        "((-1))",
        "-(1)",
        "1+2",
        "-1*(2-(-3))/4",
        "(1)+(2)",
        "((1+2)*(3+4))",
    ] {
        assert!(tree_of(text).is_ok(), "{}", text);
    }
}
