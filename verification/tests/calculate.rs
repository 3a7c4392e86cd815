use wordcalc::calculate;
use wordcalc::error::Error;
use wordcalc::parse::{ParseNode, ParseTree};
use wordcalc::types::Operator;

fn value_of_node(node: &ParseNode) -> Result<f64, String> {
    let left = value_of(&node.left)?;
    let right = value_of(&node.right)?;
    match node.operator {
        Operator::Plus => Ok(left + right),
        Operator::Minus => Ok(left - right),
        Operator::Multiply => Ok(left * right),
        Operator::Divide => {
            if right == 0f64 {
                return Err("Teilen durch Null nicht möglich".to_string());
            }
            Ok(left / right)
        }
    }
}

fn value_of(tree: &ParseTree) -> Result<f64, String> {
    match tree {
        ParseTree::Number(n) => Ok(*n as f64),
        ParseTree::Node(node) => value_of_node(node),
    }
}

fn evaluated(input: &str) -> Result<(f64, String), Error> {
    let (tree, text) = calculate(input)?;
    match value_of(&tree) {
        Ok(n) => Ok((n, text)),
        Err(msg) => Err(Error::ParseNode(msg)),
    }
}

#[test]
fn rdm_1() {
    let res = evaluated("1 + (1 - 5)").unwrap();
    assert_eq!(-3f64, res.0);
}

#[test]
fn rdm_2() {
    let res = evaluated("eins plus auf eins minus fünf zu").unwrap();
    assert_eq!(-3f64, res.0);
}

#[test]
fn rdm_3() {
    let res = evaluated("eins + auf 1 - fünf)").unwrap();
    assert_eq!(-3f64, res.0);
}

#[test]
fn rdm_4() {
    let res = evaluated("eintausendfünfhundertdreiundsiebzig mal (-34 plus 3 mal sechshunderteinundvierzig) durch acht").unwrap();
    assert_eq!(371_424.625f64, res.0);
}

#[test]
fn rdm_5() {
    let res = evaluated("eins plus (minus drei mal 6) durch 2 minus (drei mal 4)").unwrap();
    assert_eq!(-20f64, res.0);
}

#[test]
fn t1() {
    let res = evaluated("1").unwrap();
    assert_eq!(1f64, res.0);
}

#[test]
fn t2() {
    let res = evaluated("-1").unwrap();
    assert_eq!(-1f64, res.0);
}

#[test]
fn t3() {
    let res = evaluated("(1)").unwrap();
    assert_eq!(1f64, res.0);
}

#[test]
fn t4() {
    let res = evaluated("(-1)").unwrap();
    assert_eq!(-1f64, res.0);
}

#[test]
fn t5() {
    let res = evaluated("((1))").unwrap();
    assert_eq!(1f64, res.0);
}

#[test]
fn t6() {
    let res = evaluated("((-1))").unwrap();
    assert_eq!(-1f64, res.0);
}

#[test]
fn t7() {
    let res = evaluated("-((-1))").unwrap();
    assert_eq!(1f64, res.0);
}

#[test]
fn t8() {
    let res = evaluated("-((-1 plus 3))").unwrap();
    assert_eq!(-2f64, res.0);
}

#[test]
fn precedence_of_times_over_plus() {
    assert_eq!(11f64, evaluated("5+2*3").unwrap().0);
}

#[test]
fn minus_and_plus_group_from_the_left() {
    assert_eq!(3f64, evaluated("5-3+1").unwrap().0);
}

#[test]
fn brackets_come_first() {
    assert_eq!(14f64, evaluated("(5+2)*2").unwrap().0);
}

#[test]
fn leading_minus_then_product() {
    assert_eq!(1f64, evaluated("-5+2*3").unwrap().0);
}

#[test]
fn division_groups_from_the_left() {
    assert_eq!(2f64, evaluated("8/2/2").unwrap().0);
}

#[test]
fn division_by_zero_is_an_error() {
    let res = evaluated("1/(2-2)");
    assert_eq!(
        res,
        Err(Error::ParseNode("Teilen durch Null nicht möglich".to_string()))
    );
}

#[test]
fn calculate_returns_the_printed_tree() {
    let (tree, text) = calculate("1 + (1 - 5)").unwrap();
    assert_eq!(text, "(1+(1-5))");
    assert_eq!(tree.print(), text);
}

#[test]
fn calculate_prints_product_and_quotient_with_their_own_signs() {
    let (_, text) = calculate("2*3/4").unwrap();
    assert_eq!(text, "((2\u{d7}3)\u{f7}4)");
}

#[test]
fn calculate_reports_unknown_characters_before_anything_else() {
    let err = calculate("1 + ? )").unwrap_err();
    assert_eq!(
        err.to_string(),
        "Fehler:\n\r\u{204E}\u{204E}\u{204E}\u{204E}\u{204E}\u{204E}\u{204E}\u{204E} 1 + ? )\n\r             ^  Unbekanntes Zeichen\n\n\r"
    );
}

#[test]
fn calculate_of_nothing_misses_an_operand() {
    assert_eq!(
        calculate(""),
        Err(Error::ParseTree("Missing operand".to_string()))
    );
    assert_eq!(
        calculate("   "),
        Err(Error::ParseTree("Missing operand".to_string()))
    );
}

#[test]
fn calculate_of_empty_brackets_fails_in_the_tree() {
    assert_eq!(
        calculate("()"),
        Err(Error::ParseTree("Invalid prefix operator".to_string()))
    );
    assert_eq!(
        calculate("(1)(2)"),
        Err(Error::ParseTree("Missing operator".to_string()))
    );
}
