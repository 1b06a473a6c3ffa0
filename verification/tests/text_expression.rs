use calculator::operation::{Argument, Operation};
use calculator::text_expression::Expression;

fn s(text: &str) -> String {
    text.to_string()
}

fn describe(op: &Operation) -> (char, usize, (String, bool, bool), (String, bool, bool)) {
    let parts = |a: &Argument| (a.arg.clone(), a.next_to_parenthesis, a.negative);
    match op {
        Operation::Addition { index, arg1, arg2 } => ('+', *index, parts(arg1), parts(arg2)),
        Operation::Subtraction { index, arg1, arg2 } => ('-', *index, parts(arg1), parts(arg2)),
        Operation::Multiplication { index, arg1, arg2 } => ('*', *index, parts(arg1), parts(arg2)),
        Operation::Division { index, arg1, arg2 } => ('/', *index, parts(arg1), parts(arg2)),
        Operation::Exponentiation { index, arg1, arg2 } => ('^', *index, parts(arg1), parts(arg2)),
        Operation::Zero => ('0', 0, (s(""), false, false), (s(""), false, false)),
    }
}

fn arg(text: &str, next_to_parenthesis: bool, negative: bool) -> (String, bool, bool) {
    (s(text), next_to_parenthesis, negative)
}

fn first(text: &str) -> (char, usize, (String, bool, bool), (String, bool, bool)) {
    match Expression::get_current_operation(&s(text)) {
        Ok(e) => describe(&e.current_operation),
        Err(m) => panic!("{}", m),
    }
}

#[test]
fn negative_parentheses() {
    assert!(Expression::is_negative(&s("(-5)+3"), 0));
    assert!(!Expression::is_negative(&s("(5)+3"), 0));
    assert!(!Expression::is_negative(&s("(1+2)"), 0));
}

#[test]
fn answers() {
    assert!(Expression::is_answer(&s("(-5)")));
    assert!(!Expression::is_answer(&s("-5")));
    assert!(Expression::is_answer(&s("12")));
    assert!(Expression::is_answer(&s("")));
    assert!(!Expression::is_answer(&s("1+2")));
}

#[test]
fn text_operand_checks() {
    assert_eq!(Expression::check_right_arg(&s("3*(-1)"), 1), Ok(()));
    assert_eq!(Expression::check_right_arg(&s("3*)"), 1), Err(s("Incorrect expression. ), index:2")));
    assert_eq!(Expression::check_right_arg(&s("3*"), 1), Ok(()));
    assert_eq!(Expression::check_left_arg(&s("3-(1)"), 1), Ok(()));
    assert_eq!(Expression::check_left_arg(&s("1*+2"), 2), Err(s("Incorrect expression. *, index:1")));
    assert_eq!(Expression::check_operation(&s("1*+2"), 2), Err(s("Incorrect expression. *, index:1")));
}

#[test]
fn text_expression_checks() {
    assert_eq!(Expression::check_expression(&s("1+2")), Ok(()));
    assert_eq!(Expression::check_expression(&s("(1+2)*3")), Ok(()));
    assert_eq!(Expression::check_expression(&s("")), Err(s("nothing entered")));
    assert_eq!(Expression::check_expression(&s("5")), Err(s("input is just number")));
    assert_eq!(Expression::check_expression(&s("(-5)")), Err(s("input is just number")));
    assert_eq!(Expression::check_expression(&s("(1+2")), Err(s("Extra '('")));
    assert_eq!(Expression::check_expression(&s("1+2)")), Err(s("Extra ')'")));
    assert_eq!(Expression::check_expression(&s("1++2")), Err(s("Incorrect expression. +, index:2")));
    assert_eq!(Expression::check_expression(&s("1+a")), Err(s("Incorrect expression. a, index:2")));
    assert_eq!(Expression::check_expression(&s("1a+2")), Err(s("unknown operator:a, index:1")));
    assert_eq!(
        Expression::check_expression(&s("(+)")),
        Err(s("Incorrect expression. (, index:1, Incorrect expression. ), index:2"))
    );
    assert_eq!(Expression::check_expression(&s("1+")), Ok(()));
}

#[test]
fn operands() {
    let (a, b) = Expression::get_args(&s("(-2)*(-3)"), 4);
    assert_eq!((a.arg.as_str(), a.next_to_parenthesis, a.negative), ("-2", false, true));
    assert_eq!((b.arg.as_str(), b.next_to_parenthesis, b.negative), ("-3", false, true));
    let (a, b) = Expression::get_args(&s("12+34"), 2);
    assert_eq!((a.arg.as_str(), b.arg.as_str()), ("12", "34"));
    let (a, b) = Expression::get_args(&s("(1+2)*3"), 2);
    assert_eq!((a.next_to_parenthesis, b.next_to_parenthesis), (true, true));
}

#[test]
fn first_operation() {
    assert_eq!(first("1+2*3"), ('*', 3, arg("2", false, false), arg("3", false, false)));
    assert_eq!(first("(1+2)*3"), ('+', 2, arg("1", true, false), arg("2", true, false)));
    assert_eq!(first("2^3*4"), ('^', 1, arg("2", false, false), arg("3", false, false)));
    assert_eq!(first("1-2-3"), ('-', 1, arg("1", false, false), arg("2", false, false)));
    assert_eq!(first("(-5)+3"), ('+', 4, arg("-5", false, true), arg("3", false, false)));
    assert_eq!(first("1+(2*(3+4))"), ('*', 4, arg("2", true, false), arg("3", false, false)));
}

#[test]
fn first_operation_errors() {
    match Expression::get_current_operation(&s("1+a")) {
        Err(m) => assert_eq!(m, "unknown operator:a, index:2"),
        Ok(_) => panic!("expected an error"),
    }
    assert!(Expression::try_current_operation(&s("5")).is_none());
    assert!(Expression::try_current_operation(&s("")).is_none());
    assert!(Expression::try_current_operation(&s("1+2")).is_some());
}

#[test]
fn operators_from_characters() {
    let op = Operation::get_operator_from_chr('/', 3, Argument::new(), Argument::new()).ok().unwrap();
    assert_eq!(describe(&op).0, '/');
    assert_eq!(describe(&op).1, 3);
    match Operation::get_operator_from_chr('7', 0, Argument::new(), Argument::new()) {
        Err(m) => assert_eq!(m, "7 is digit"),
        Ok(_) => panic!("expected an error"),
    }
    match Operation::get_operator_from_chr('x', 0, Argument::new(), Argument::new()) {
        Err(m) => assert_eq!(m, "unknown operator"),
        Ok(_) => panic!("expected an error"),
    }
}

#[test]
fn alike_expressions() {
    let a = Expression::get_current_operation(&s("(1+2)*3")).ok().unwrap();
    let b = Expression::get_current_operation(&s("4*(1+2)")).ok().unwrap();
    let c = Expression::get_current_operation(&s("1*2")).ok().unwrap();
    assert!(a.eq(&b));
    assert!(!a.eq(&c));
}

#[test]
fn extra_parentheses() {
    let mut t = s("((1+2))");
    assert_eq!(Expression::check_for_extra_parentheses(&mut t), Some(vec![s("(1+2)"), s("1+2")]));
    assert_eq!(t, "1+2");
    let mut t = s("(2*3)+1");
    assert_eq!(Expression::check_for_extra_parentheses(&mut t), Some(vec![s("2*3+1")]));
    assert_eq!(t, "2*3+1");
    let mut t = s("2*((3+4))");
    assert_eq!(Expression::check_for_extra_parentheses(&mut t), Some(vec![s("2*(3+4)")]));
    assert_eq!(t, "2*(3+4)");
    let mut t = s("(1+2)*3");
    assert_eq!(Expression::check_for_extra_parentheses(&mut t), Some(vec![]));
    assert_eq!(t, "(1+2)*3");
    let mut t = s("1+a");
    assert_eq!(Expression::check_for_extra_parentheses(&mut t), Some(vec![]));
    let mut t = s("(-5)");
    assert_eq!(Expression::check_for_extra_parentheses(&mut t), None);
}

#[test]
fn first_operation_stays_alike_after_removal() {
    let mut t = s("((1+2))*3");
    let before = Expression::get_current_operation(&t).ok().unwrap();
    let notes = Expression::check_for_extra_parentheses(&mut t).unwrap();
    let after = Expression::get_current_operation(&t).ok().unwrap();
    assert!(before.eq(&after));
    assert_eq!(notes.len(), 1);
}

#[test]
fn results_replace_their_operation() {
    let mut t = s("1+2*3");
    assert!(!Expression::put_result(&mut t, &s("6"), 2, 5));
    assert_eq!(t, "1+6");
    assert!(Expression::put_result(&mut t, &s("7"), 0, 3));
    assert_eq!(t, "7");
    let mut u = s("2*(-3)");
    assert!(Expression::put_result(&mut u, &s("(-6)"), 0, 6));
    assert_eq!(u, "(-6)");
}

#[test]
fn removing_parentheses_from_text_keeps_everything_else() {
    let strip = |t: &str| t.chars().filter(|c| *c != '(' && *c != ')').collect::<String>();
    for text in ["((1+2))*3", "(2*3)+1", "2*((3+4))", "((1))+2"] {
        let mut t = s(text);
        Expression::check_for_extra_parentheses(&mut t).unwrap();
        assert_eq!(strip(&t), strip(text));
    }
}

#[test]
fn text_first_operation_is_deepest_strongest_leftmost() {
    assert_eq!(first("1+2*3-4*5").1, 3);
    assert_eq!(first("2^3^2").1, 1);
    assert_eq!(first("(1+2)*(3*4)").0, '*');
    assert_eq!(first("2*((3+4))").1, 5);
}
