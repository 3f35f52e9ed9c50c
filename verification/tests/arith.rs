use sush::elements::expr::arithmetic::calculator::{bin_calc, div_trunc, eval_elems, rem_trunc, unary_calc};
use sush::elements::expr::arithmetic::elem::{ArithElem, AssignOp, BinaryOp, UnaryOp};
use sush::elements::expr::arithmetic::rev_polish::{rearrange, rev_polish_order};
use sush::elements::expr::arithmetic::ArithmeticExpr;
use sush::error::arith::ArithError;
use sush::error::exec::ExecError;
use sush::error::parse::ParseError;
use sush::feeder::Feeder;
use sush::shell::database::DataBase;
use sush::shell::ShellCore;
use sush::utils::number::IntError;

fn shell() -> ShellCore {
    ShellCore::new(DataBase::bare())
}

fn parse(text: &str) -> Option<ArithmeticExpr> {
    let mut f = Feeder::new(text);
    ArithmeticExpr::parse(&mut f).ok()
}

fn value(text: &str) -> Result<i128, ExecError> {
    let mut c = shell();
    parse(text).unwrap().eval_as_int(&mut c)
}

fn failure(e: ArithError) -> Result<i128, ExecError> {
    Err(ExecError::ArithError(String::new(), e))
}

fn sum_tokens() -> Vec<ArithElem> {
    vec![
        ArithElem::Integer(1),
        ArithElem::BinaryOp(BinaryOp::Add),
        ArithElem::Integer(2),
        ArithElem::BinaryOp(BinaryOp::Mul),
        ArithElem::Integer(3),
    ]
}

#[test]
fn rearrange_puts_product_before_sum() {
    let post = rearrange(&sum_tokens()).unwrap();
    assert_eq!(
        post,
        vec![
            ArithElem::Integer(1),
            ArithElem::Integer(2),
            ArithElem::Integer(3),
            ArithElem::BinaryOp(BinaryOp::Mul),
            ArithElem::BinaryOp(BinaryOp::Add),
        ]
    );
    assert_eq!(rev_polish_order(&sum_tokens()), Ok(vec![0, 2, 4, 3, 1]));
    assert_eq!(rearrange(&[]), Ok(vec![]));
}

#[test]
fn one_plus_two_times_three_is_seven() {
    let mut db = DataBase::bare();
    assert_eq!(eval_elems(&sum_tokens(), &mut db), Ok(7));
    assert_eq!(value("1 + 2 * 3"), Ok(7));
    assert_eq!(value("1+2*3"), Ok(7));
    assert_eq!(parse("1 + 2 * 3").unwrap().elements, sum_tokens());
}

#[test]
fn assignment_groups_from_the_right() {
    let tokens = vec![
        ArithElem::Name("a".to_string()),
        ArithElem::AssignOp(AssignOp::Assign),
        ArithElem::Name("b".to_string()),
        ArithElem::AssignOp(AssignOp::Assign),
        ArithElem::Integer(5),
    ];
    assert_eq!(rev_polish_order(&tokens), Ok(vec![0, 2, 4, 3, 1]));
    let mut db = DataBase::bare();
    assert_eq!(eval_elems(&tokens, &mut db), Ok(5));
    assert_eq!(db.get_param("a"), Ok("5".to_string()));
    assert_eq!(db.get_param("b"), Ok("5".to_string()));
    let mut c = shell();
    assert_eq!(parse("x = y = 2 + 3").unwrap().eval(&mut c), Ok("5".to_string()));
    assert_eq!(c.db.get_param("x"), Ok("5".to_string()));
    assert_eq!(c.db.get_param("y"), Ok("5".to_string()));
}

#[test]
fn two_operands_in_a_row_are_a_syntax_error() {
    let tokens = vec![ArithElem::Integer(1), ArithElem::Integer(2)];
    assert_eq!(
        rearrange(&tokens),
        Err(ExecError::ArithError(String::new(), ArithError::SyntaxError("2".to_string())))
    );
    assert_eq!(rev_polish_order(&tokens), Err(ArithError::SyntaxError("2".to_string())));
    assert_eq!(value("1 2"), failure(ArithError::SyntaxError("2".to_string())));
    assert_eq!(value("1 x"), failure(ArithError::SyntaxError("x".to_string())));
    assert_eq!(value("1 (2)"), failure(ArithError::SyntaxError("(".to_string())));
}

#[test]
fn operators_bind_by_precedence() {
    assert_eq!(value("(1 + 2) * 3"), Ok(9));
    assert_eq!(value("2 - 3 - 4"), Ok(-5));
    assert_eq!(value("2 * 3 + 4 * 5"), Ok(26));
    assert_eq!(value("1 + 2 == 3"), Ok(1));
    assert_eq!(value("1 < 2 == 1"), Ok(1));
    assert_eq!(value("1 | 2 ^ 3 & 4"), Ok(3));
    assert_eq!(value("1 + 1 << 2"), Ok(8));
    assert_eq!(value("2 * -3"), Ok(-6));
    assert_eq!(value("-2 * 3"), Ok(-6));
    assert_eq!(value("!-1"), Ok(0));
    assert_eq!(value("((7))"), Ok(7));
    assert_eq!(value(" 7 "), Ok(7));
}

#[test]
fn division_rounds_toward_zero() {
    assert_eq!(value("7 / 2"), Ok(3));
    assert_eq!(value("-7 / 2"), Ok(-3));
    assert_eq!(value("7 / -2"), Ok(-3));
    assert_eq!(value("-7 / -2"), Ok(3));
    assert_eq!(value("7 % 2"), Ok(1));
    assert_eq!(value("-7 % 2"), Ok(-1));
    assert_eq!(value("7 % -2"), Ok(1));
    assert_eq!(value("-7 % -2"), Ok(-1));
    assert_eq!(value("6 / 3"), Ok(2));
    assert_eq!(value("0 / 5"), Ok(0));
    assert_eq!(div_trunc(i128::MIN, -1), i128::MIN);
    assert_eq!(rem_trunc(i128::MIN, -1), 0);
    assert_eq!(div_trunc(i128::MIN, 1), i128::MIN);
    assert_eq!(div_trunc(i128::MAX, -1), -i128::MAX);
    assert_eq!(div_trunc(5, i128::MIN), 0);
    assert_eq!(rem_trunc(5, i128::MIN), 5);
    assert_eq!(div_trunc(i128::MIN, i128::MIN), 1);
}

#[test]
fn division_by_zero_fails() {
    assert_eq!(value("1 / 0"), failure(ArithError::DivZero));
    assert_eq!(value("1 % 0"), failure(ArithError::DivZero));
    assert_eq!(value("x = 4, x /= 0"), failure(ArithError::DivZero));
    assert_eq!(bin_calc(BinaryOp::Div, 1, 0), Err(ArithError::DivZero));
}

#[test]
fn overflow_wraps() {
    assert_eq!(value("170141183460469231731687303715884105727 + 1"), Ok(i128::MIN));
    assert_eq!(value("-170141183460469231731687303715884105727 - 2"), Ok(i128::MAX));
    assert_eq!(value("170141183460469231731687303715884105727 * 2"), Ok(-2));
    assert_eq!(unary_calc(UnaryOp::Minus, i128::MIN), i128::MIN);
}

#[test]
fn comparisons_and_logic_give_one_or_zero() {
    assert_eq!(value("1 < 2"), Ok(1));
    assert_eq!(value("2 < 1"), Ok(0));
    assert_eq!(value("2 <= 2"), Ok(1));
    assert_eq!(value("2 >= 3"), Ok(0));
    assert_eq!(value("3 > 2"), Ok(1));
    assert_eq!(value("3 == 3"), Ok(1));
    assert_eq!(value("3 != 3"), Ok(0));
    assert_eq!(value("1 && 0"), Ok(0));
    assert_eq!(value("2 && 3"), Ok(1));
    assert_eq!(value("0 || 0"), Ok(0));
    assert_eq!(value("0 || 7"), Ok(1));
    assert_eq!(value("!0"), Ok(1));
    assert_eq!(value("!5"), Ok(0));
}

#[test]
fn bits_and_shifts() {
    assert_eq!(value("5 & 3"), Ok(1));
    assert_eq!(value("5 | 3"), Ok(7));
    assert_eq!(value("5 ^ 3"), Ok(6));
    assert_eq!(value("~0"), Ok(-1));
    assert_eq!(value("~5"), Ok(-6));
    assert_eq!(value("1 << 4"), Ok(16));
    assert_eq!(value("256 >> 4"), Ok(16));
    assert_eq!(value("-16 >> 2"), Ok(-4));
    assert_eq!(value("1 << 127"), Ok(i128::MIN));
    assert_eq!(value("1 << 128"), Ok(0));
    assert_eq!(value("1 << -1"), Ok(0));
    assert_eq!(value("5 >> 200"), Ok(0));
    assert_eq!(value("-5 >> 200"), Ok(-1));
}

#[test]
fn the_comma_gives_the_right_side() {
    assert_eq!(value("1, 2"), Ok(2));
    assert_eq!(value("x = 2, x * 10"), Ok(20));
}

#[test]
fn the_ternary_evaluates_one_branch() {
    assert_eq!(value("1 ? 10 : 20"), Ok(10));
    assert_eq!(value("0 ? 10 : 20"), Ok(20));
    assert_eq!(value("0 ? 1 / 0 : 5"), Ok(5));
    assert_eq!(value("1 ? 5 : 1 / 0"), Ok(5));
    assert_eq!(value("1 ? 1 / 0 : 5"), failure(ArithError::DivZero));
    assert_eq!(value("2 > 1 ? 3 + 4 : 0"), Ok(7));
    assert_eq!(value("0 ? 1 : 0 ? 2 : 3"), Ok(3));
    assert_eq!(value("r = 1 ? 8 : 9"), Ok(8));
    let mut c = shell();
    assert_eq!(parse("0 ? (a = 1) : (b = 2)").unwrap().eval_as_int(&mut c), Ok(2));
    assert!(!c.db.exist("a"));
    assert_eq!(c.db.get_param("b"), Ok("2".to_string()));
    assert_eq!(
        eval_elems(&vec![ArithElem::Ternary(vec![], vec![])], &mut c.db),
        failure(ArithError::OperandExpected(String::new()))
    );
}

#[test]
fn parameters_are_read_and_written() {
    let mut c = shell();
    assert_eq!(c.db.set_param("x", "4", None), Ok(()));
    assert_eq!(parse("x + 1").unwrap().eval_as_int(&mut c), Ok(5));
    assert_eq!(parse("$x * $x").unwrap().eval_as_int(&mut c), Ok(16));
    assert_eq!(parse("unset + 1").unwrap().eval_as_int(&mut c), Ok(1));
    assert_eq!(parse("x += 3").unwrap().eval_as_int(&mut c), Ok(7));
    assert_eq!(c.db.get_param("x"), Ok("7".to_string()));
    assert_eq!(parse("x -= 10").unwrap().eval_as_int(&mut c), Ok(-3));
    assert_eq!(parse("x *= x").unwrap().eval_as_int(&mut c), Ok(9));
    assert_eq!(parse("x /= 2").unwrap().eval_as_int(&mut c), Ok(4));
    assert_eq!(parse("x %= 3").unwrap().eval_as_int(&mut c), Ok(1));
    assert_eq!(parse("x <<= 4").unwrap().eval_as_int(&mut c), Ok(16));
    assert_eq!(parse("x >>= 1").unwrap().eval_as_int(&mut c), Ok(8));
    assert_eq!(parse("x |= 3").unwrap().eval_as_int(&mut c), Ok(11));
    assert_eq!(parse("x &= 6").unwrap().eval_as_int(&mut c), Ok(2));
    assert_eq!(parse("x ^= 7").unwrap().eval_as_int(&mut c), Ok(5));
    assert_eq!(c.db.get_param("x"), Ok("5".to_string()));
    assert_eq!(parse("new += 2").unwrap().eval_as_int(&mut c), Ok(2));
    assert_eq!(c.db.get_param("new"), Ok("2".to_string()));
    assert_eq!(c.db.set_array("arr", Some(vec!["3".to_string(), "9".to_string()]), None), Ok(()));
    assert_eq!(parse("arr + 1").unwrap().eval_as_int(&mut c), Ok(4));
    assert_eq!(parse("arr = 6").unwrap().eval_as_int(&mut c), Ok(6));
    assert_eq!(c.db.get_vec("arr", false), Ok(vec!["6".to_string(), "9".to_string()]));
}

#[test]
fn a_value_that_is_no_numeral_fails_when_it_is_read() {
    let mut c = shell();
    assert_eq!(c.db.set_param("w", "abc", None), Ok(()));
    let bad = failure(ArithError::InvalidNumber("abc".to_string(), IntError::InvalidDigit));
    assert_eq!(parse("w + 1").unwrap().eval_as_int(&mut c), bad);
    assert_eq!(parse("w").unwrap().eval_as_int(&mut c), bad);
    assert_eq!(parse("0 || w").unwrap().eval_as_int(&mut c), bad);
    assert_eq!(parse("1 || w").unwrap().eval_as_int(&mut c), Ok(1));
    assert_eq!(parse("0 && w").unwrap().eval_as_int(&mut c), Ok(0));
    assert_eq!(parse("1 && w").unwrap().eval_as_int(&mut c), bad);
    assert_eq!(parse("w = 3").unwrap().eval_as_int(&mut c), Ok(3));
    assert_eq!(parse("w + 1").unwrap().eval_as_int(&mut c), Ok(4));
}

#[test]
fn an_assignment_needs_a_parameter_that_takes_it() {
    let mut c = shell();
    assert_eq!(
        parse("5 = 1").unwrap().eval_as_int(&mut c),
        failure(ArithError::AssignmentToNonVariable("5".to_string()))
    );
    assert_eq!(
        parse("(x) = 1").unwrap().eval_as_int(&mut c),
        failure(ArithError::AssignmentToNonVariable("0".to_string()))
    );
    assert_eq!(c.db.set_param("ro", "1", None), Ok(()));
    c.db.set_flag("ro", 'r', None);
    assert_eq!(
        parse("ro = 2").unwrap().eval_as_int(&mut c),
        Err(ExecError::ReadOnly("ro".to_string()))
    );
    assert_eq!(c.db.get_param("ro"), Ok("1".to_string()));
    assert_eq!(
        parse("a = 1, ro += 1, b = 2").unwrap().eval_as_int(&mut c),
        Err(ExecError::ReadOnly("ro".to_string()))
    );
    assert_eq!(c.db.get_param("a"), Ok("1".to_string()));
    assert!(!c.db.exist("b"));
}

#[test]
fn an_operator_without_operands_fails() {
    let missing = failure(ArithError::OperandExpected(String::new()));
    assert_eq!(value(""), missing);
    assert_eq!(value("   "), missing);
    assert_eq!(value("1 +"), missing);
    assert_eq!(value("* 2"), missing);
    assert_eq!(value("- - 1"), missing);
    assert_eq!(value("!"), missing);
    assert_eq!(value("= 1"), missing);
    assert_eq!(value("()"), missing);
    assert_eq!(value("? 1 : 2"), missing);
}

#[test]
fn the_text_is_read_up_to_what_starts_no_token() {
    let mut f = Feeder::new("1+2]rest");
    let e = ArithmeticExpr::parse(&mut f).unwrap();
    assert_eq!(e.text, "1+2");
    assert_eq!(e.elements.len(), 3);
    assert!(f.starts_with("]rest"));
    let mut f = Feeder::new(" a * ( b + 1 ) :x");
    let e = ArithmeticExpr::parse(&mut f).unwrap();
    assert_eq!(e.text, " a * ( b + 1 ) ");
    assert_eq!(
        e.elements,
        vec![
            ArithElem::Name("a".to_string()),
            ArithElem::BinaryOp(BinaryOp::Mul),
            ArithElem::InParen(vec![
                ArithElem::Name("b".to_string()),
                ArithElem::BinaryOp(BinaryOp::Add),
                ArithElem::Integer(1),
            ]),
        ]
    );
    assert!(f.starts_with(":x"));
    let mut f = Feeder::new("]");
    let e = ArithmeticExpr::parse(&mut f).unwrap();
    assert_eq!(e.text, "");
    assert_eq!(e.elements, vec![]);
    assert_eq!(f.len(), 1);
}

#[test]
fn signs_and_operators_are_told_apart() {
    assert_eq!(
        parse("-a - -1").unwrap().elements,
        vec![
            ArithElem::UnaryOp(UnaryOp::Minus),
            ArithElem::Name("a".to_string()),
            ArithElem::BinaryOp(BinaryOp::Sub),
            ArithElem::UnaryOp(UnaryOp::Minus),
            ArithElem::Integer(1),
        ]
    );
    assert_eq!(
        parse("a<<=1>=b!=~c").unwrap().elements,
        vec![
            ArithElem::Name("a".to_string()),
            ArithElem::AssignOp(AssignOp::Shl),
            ArithElem::Integer(1),
            ArithElem::BinaryOp(BinaryOp::Ge),
            ArithElem::Name("b".to_string()),
            ArithElem::BinaryOp(BinaryOp::Ne),
            ArithElem::UnaryOp(UnaryOp::BitNot),
            ArithElem::Name("c".to_string()),
        ]
    );
    assert_eq!(
        parse("c?$y:+2").unwrap().elements,
        vec![
            ArithElem::Name("c".to_string()),
            ArithElem::Ternary(
                vec![ArithElem::Name("y".to_string())],
                vec![ArithElem::UnaryOp(UnaryOp::Plus), ArithElem::Integer(2)],
            ),
        ]
    );
}

#[test]
fn text_that_cannot_be_closed_is_not_read() {
    for bad in ["(1", "1 + (2 * (3)", "1 ? 2", "1 ? (2 : 3)", "340282366920938463463374607431768211456"] {
        let mut f = Feeder::new(bad);
        assert_eq!(
            ArithmeticExpr::parse(&mut f),
            Err(ParseError::UnexpectedSymbol(bad.to_string())),
            "{}",
            bad
        );
        assert_eq!(f.len(), bad.chars().count(), "{}", bad);
    }
}

#[test]
fn a_long_sum_is_read_and_evaluated() {
    let text = vec!["1"; 100_000].join(" + ");
    let mut f = Feeder::new(&text);
    let e = ArithmeticExpr::parse(&mut f).unwrap();
    assert!(f.is_empty());
    assert_eq!(e.elements.len(), 199_999);
    let mut c = shell();
    assert_eq!(e.eval_as_int(&mut c), Ok(100_000));
}

#[test]
fn rearranging_fails_exactly_where_two_operands_meet() {
    let x = || ArithElem::Name("x".to_string());
    let plus = || ArithElem::BinaryOp(BinaryOp::Add);
    let neg = || ArithElem::UnaryOp(UnaryOp::Minus);
    assert!(rearrange(&[x(), plus(), x()]).is_ok());
    assert!(rearrange(&[plus(), plus(), x(), plus()]).is_ok());
    assert!(rearrange(&[neg(), x(), plus(), neg(), x()]).is_ok());
    assert!(rearrange(&[x()]).is_ok());
    assert!(rearrange(&[x(), x()]).is_err());
    assert!(rearrange(&[x(), plus(), x(), ArithElem::Integer(4)]).is_err());
    assert!(rearrange(&[plus(), ArithElem::InParen(vec![x()]), x(), plus()]).is_err());
    assert_eq!(
        rev_polish_order(&[x(), plus(), ArithElem::Integer(3), ArithElem::Integer(4), x()]),
        Err(ArithError::SyntaxError("4".to_string()))
    );
}

#[test]
fn rearranging_keeps_the_operands_in_their_order() {
    let tokens = vec![
        ArithElem::Name("a".to_string()),
        ArithElem::AssignOp(AssignOp::Assign),
        ArithElem::Integer(1),
        ArithElem::BinaryOp(BinaryOp::Add),
        ArithElem::Integer(2),
        ArithElem::BinaryOp(BinaryOp::Mul),
        ArithElem::UnaryOp(UnaryOp::Minus),
        ArithElem::Integer(3),
        ArithElem::BinaryOp(BinaryOp::Sub),
        ArithElem::Integer(4),
    ];
    let order = rev_polish_order(&tokens).unwrap();
    let mut sorted = order.clone();
    sorted.sort();
    assert_eq!(sorted, (0..tokens.len()).collect::<Vec<usize>>());
    let operands: Vec<usize> = order.iter().copied().filter(|i| tokens[*i].is_operand()).collect();
    assert_eq!(operands, vec![0, 2, 4, 7, 9]);
    assert_eq!(order, vec![0, 2, 4, 7, 6, 5, 3, 9, 8, 1]);
}
