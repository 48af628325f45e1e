use spotlight_genie::calc::{
    is_evaluable, is_left_assoc, is_operator, precedence, prepare_expression, to_rpn, tokenize_expression,
    CalcToken,
};

fn num(s: &str) -> CalcToken {
    CalcToken::Number(s.to_string())
}

fn rpn_of(expr: &str) -> Option<Vec<CalcToken>> {
    to_rpn(tokenize_expression(expr)?)
}

fn evaluate(expr: &str) -> Option<f64> {
    let mut stack: Vec<f64> = Vec::new();
    for token in rpn_of(expr)? {
        match token {
            CalcToken::Number(text) => stack.push(text.parse().ok()?),
            CalcToken::Operator(op) => {
                let r = stack.pop()?;
                let l = stack.pop()?;
                stack.push(match op {
                    '+' => l + r,
                    '-' => l - r,
                    '*' => l * r,
                    '/' => l / r,
                    '%' => l % r,
                    _ => l.powf(r),
                });
            }
            _ => return None,
        }
    }
    if stack.len() == 1 { stack.pop() } else { None }
}

#[test]
fn postfix_order_gives_algebraic_values() {
    assert_eq!(evaluate("2+3*4"), Some(14.0));
    assert_eq!(evaluate("2^3^2"), Some(512.0));
    assert_eq!(evaluate("-5+3"), Some(-2.0));
    assert_eq!(evaluate("(1+2"), None);
}

#[test]
fn multiplication_binds_tighter_than_addition() {
    assert_eq!(
        rpn_of("2+3*4"),
        Some(vec![num("2"), num("3"), num("4"), CalcToken::Operator('*'), CalcToken::Operator('+')])
    );
}

#[test]
fn power_is_right_associative() {
    assert_eq!(
        rpn_of("2^3^2"),
        Some(vec![num("2"), num("3"), num("2"), CalcToken::Operator('^'), CalcToken::Operator('^')])
    );
}

#[test]
fn subtraction_is_left_associative() {
    assert_eq!(
        rpn_of("8-3-1"),
        Some(vec![num("8"), num("3"), CalcToken::Operator('-'), num("1"), CalcToken::Operator('-')])
    );
}

#[test]
fn leading_minus_is_part_of_the_number() {
    assert_eq!(
        tokenize_expression("-5+3"),
        Some(vec![num("-5"), CalcToken::Operator('+'), num("3")])
    );
    assert_eq!(
        tokenize_expression("2*(-1.5)"),
        Some(vec![
            num("2"),
            CalcToken::Operator('*'),
            CalcToken::LeftParen,
            num("-1.5"),
            CalcToken::RightParen
        ])
    );
    assert_eq!(
        tokenize_expression("4-1"),
        Some(vec![num("4"), CalcToken::Operator('-'), num("1")])
    );
}

#[test]
fn parentheses_group_and_must_balance() {
    assert_eq!(
        rpn_of("(1+2)*3"),
        Some(vec![num("1"), num("2"), CalcToken::Operator('+'), num("3"), CalcToken::Operator('*')])
    );
    assert_eq!(rpn_of("(1+2"), None);
    assert_eq!(rpn_of("1+2)"), None);
}

#[test]
fn tokenizer_rejects_letters_and_empty_input() {
    assert_eq!(tokenize_expression("2+a"), None);
    assert_eq!(tokenize_expression("   "), None);
}

#[test]
fn input_without_operator_is_no_calculation() {
    assert_eq!(prepare_expression("hello"), None);
    assert_eq!(prepare_expression("42"), None);
    assert_eq!(prepare_expression(""), None);
}

#[test]
fn input_filter_keeps_spaces_and_reads_x_as_times() {
    assert_eq!(prepare_expression("3 x 4"), Some("3 * 4".to_string()));
    assert_eq!(prepare_expression("1\t+\n2"), Some("1+2".to_string()));
}

#[test]
fn operator_table() {
    assert!(is_operator('%'));
    assert!(!is_operator('x'));
    assert_eq!(precedence('^'), 4);
    assert_eq!(precedence('/'), 3);
    assert_eq!(precedence('-'), 2);
    assert_eq!(precedence('('), 0);
    assert!(is_left_assoc('+'));
    assert!(!is_left_assoc('^'));
}

#[test]
fn postfix_shape_is_checked() {
    assert!(is_evaluable(&rpn_of("2+3*4").unwrap()));
    assert!(is_evaluable(&vec![num("7")]));
    assert!(!is_evaluable(&vec![num("1"), CalcToken::Operator('+')]));
    assert!(!is_evaluable(&vec![num("1"), num("2")]));
    assert!(!is_evaluable(&vec![]));
    assert!(!is_evaluable(&vec![num("1"), CalcToken::LeftParen]));
    assert!(!is_evaluable(&rpn_of("2*").unwrap()));
}
