use calculator::expression::{Expression, Step};
use calculator::operation::{FloatTask, OpKind, Outcome, wrap_negative};

fn float_text(task: &FloatTask) -> String {
    match task {
        FloatTask::Decimal { kind, arg1, arg2 } => {
            let a: f64 = arg1.trim().parse().expect("smth wrong");
            let b: f64 = arg2.trim().parse().expect("smth wrong");
            let v = match kind {
                OpKind::Addition => a + b,
                OpKind::Subtraction => a - b,
                OpKind::Multiplication => a * b,
                OpKind::Division => a / b,
                OpKind::Exponentiation => a.powf(b),
            };
            v.to_string()
        }
        FloatTask::Quotient { numerator, denominator } => {
            ((*numerator as f64) / (*denominator as f64)).to_string()
        }
    }
}

fn ok(answer: &str, lines: &[&str]) -> (Result<String, String>, Vec<String>) {
    (Ok(answer.to_string()), lines.iter().map(|l| l.to_string()).collect())
}

fn err(message: &str) -> (Result<String, String>, Vec<String>) {
    (Err(message.to_string()), vec![])
}

fn solve(text: &str) -> (Result<String, String>, Vec<String>) {
    let text = text.to_string();
    assert!(Expression::settles(&text));
    let mut lines = Vec::new();
    let (mut expression, notes) = match Expression::new(text) {
        Ok(x) => x,
        Err(e) => return (Err(e), lines),
    };
    for n in notes {
        lines.push(format!("{} <- remove extra parentheses", n));
    }
    loop {
        let op = expression.current_operation();
        assert!(op.calculable(), "smth wrong");
        let calc = op.calculate();
        let result = match calc.outcome {
            Outcome::Exact(t) => t,
            Outcome::Float(task) => wrap_negative(float_text(&task)),
        };
        assert!(expression.accepts(&result, calc.range_start, calc.range_stop), "relust wrong");
        match expression.advance(result, calc.range_start, calc.range_stop) {
            Step::Finished(answer) => return (Ok(answer), lines),
            Step::Continue(line) => lines.push(line),
        }
    }
}

#[test]
fn adds_two_numbers() {
    assert_eq!(solve("1+2"), (Ok("3".to_string()), vec![]));
}

#[test]
fn multiplication_first() {
    assert_eq!(solve("2*3+4"), (Ok("10".to_string()), vec!["6+4".to_string()]));
}

#[test]
fn parentheses_first() {
    assert_eq!(solve("(1+2)*3"), ok("9", &["3*3"]));
}

#[test]
fn powers_are_worked_out_left_to_right() {
    assert_eq!(solve("2^3^2"), ok("64", &["8^2"]));
}

#[test]
fn extra_parentheses_are_removed() {
    assert_eq!(
        solve("((1+2))"),
        ok("3", &["(1+2) <- remove extra parentheses", "1+2 <- remove extra parentheses"])
    );
    assert_eq!(
        solve("((2))+3"),
        ok("5", &["(2)+3 <- remove extra parentheses", "2+3 <- remove extra parentheses"])
    );
    assert_eq!(
        solve("(1+(2*3))"),
        ok("7", &["(1+2*3) <- remove extra parentheses", "1+2*3 <- remove extra parentheses", "1+6"])
    );
}

#[test]
fn parentheses_that_matter_stay() {
    assert_eq!(
        solve("(1+2)+(3+4)"),
        ok("10", &["1+2+(3+4) <- remove extra parentheses", "1+2+7", "3+7"])
    );
    assert_eq!(solve("(2+3)*(4+5)"), ok("45", &["5*(4+5)", "5*9"]));
    assert_eq!(solve("6/(1+2)"), ok("2", &["6/3"]));
}

#[test]
fn negative_numbers() {
    assert_eq!(solve("(-5)+3"), ok("-2", &[]));
    assert_eq!(solve("2*(-3)"), ok("-6", &[]));
    assert_eq!(solve("1/(-1)"), ok("-1", &[]));
    assert_eq!(solve("2-(-3)"), ok("5", &[]));
    assert_eq!(solve("(-3)-2"), ok("-5", &[]));
    assert_eq!(solve("(-2)^3"), ok("-8", &[]));
    assert_eq!(solve("3*(-2)*(-2)"), ok("12", &["(-6)*(-2)"]));
}

#[test]
fn several_steps() {
    assert_eq!(solve("1+2*3-4"), ok("3", &["1+6-4", "7-4"]));
    assert_eq!(solve("2*(3+4)*5"), ok("70", &["2*7*5", "14*5"]));
    assert_eq!(solve("1*2*3*4"), ok("24", &["2*3*4", "6*4"]));
    assert_eq!(solve("100/10/5"), ok("2", &["10/5"]));
}

#[test]
fn single_operations() {
    assert_eq!(solve("8/2"), ok("4", &[]));
    assert_eq!(solve("2^10"), ok("1024", &[]));
    assert_eq!(solve("10-3"), ok("7", &[]));
    assert_eq!(solve("0-0"), ok("0", &[]));
    assert_eq!(solve("  4*5  "), ok("20", &[]));
    assert_eq!(solve("18446744073709551615+0"), ok("18446744073709551615", &[]));
}

#[test]
fn decimal_results_go_through_floats() {
    assert_eq!(solve("7/2"), ok("3.5", &[]));
    assert_eq!(solve("2^(-1)"), ok("0.5", &[]));
    assert_eq!(solve("1.5+1"), ok("2.5", &[]));
}

#[test]
fn errors() {
    assert_eq!(solve("1+a"), err("unknown symbol:a, index:2"));
    assert_eq!(solve(""), err("Its just a number"));
    assert_eq!(solve("   "), err("Its just a number"));
    assert_eq!(solve("5"), err("Its just a number"));
    assert_eq!(solve("(-5)"), err("Its just a number"));
    assert_eq!(solve("1+"), err("incorrect expression. chr:+, index:1"));
    assert_eq!(solve("+1"), err("incorrect expression. chr:+ index:0"));
    assert_eq!(solve("(1+2"), err("Extra '('"));
    assert_eq!(solve("1+2)"), err("Extra ')'"));
    assert_eq!(solve("1++2"), err("incorrect expression. chr:+, index:2"));
}

#[test]
fn overflow_is_detected_before_working_out() {
    let (e, _) = Expression::new("3-10".to_string()).ok().unwrap();
    assert!(!e.current_operation().calculable());
    let (f, _) = Expression::new("18446744073709551615+1".to_string()).ok().unwrap();
    assert!(!f.current_operation().calculable());
    let (g, _) = Expression::new("9-3".to_string()).ok().unwrap();
    assert!(g.current_operation().calculable());
}

#[test]
fn a_lone_group_is_refused_when_worked_out() {
    let (e, notes) = Expression::new("(5)".to_string()).ok().unwrap();
    assert_eq!(notes, vec!["5".to_string()]);
    let calc = e.current_operation().calculate();
    match calc.outcome {
        Outcome::Exact(t) => {
            assert_eq!(t, "lol");
            assert!(!e.accepts(&t, calc.range_start, calc.range_stop));
        }
        Outcome::Float(_) => panic!("expected an exact outcome"),
    }
}

#[test]
fn expression_text_and_negative_result() {
    let (e, _) = Expression::new(" (-2)*3 ".to_string()).ok().unwrap();
    assert_eq!(e.to_string(), "(-2)*3");
    assert!(e.is_negative_result());
    let (f, _) = Expression::new("2*3".to_string()).ok().unwrap();
    assert!(!f.is_negative_result());
}

#[test]
fn settles_on_ordinary_input() {
    assert!(Expression::settles(&"((1+2))*3".to_string()));
    assert!(Expression::settles(&"1+a".to_string()));
}
