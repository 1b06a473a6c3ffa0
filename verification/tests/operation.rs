use calculator::operation::{wrap_negative, Argument, FloatTask, OpKind, Operation, Outcome};

fn a(text: &str) -> Argument {
    Argument { arg: text.to_string(), next_to_parenthesis: false, negative: false }
}

fn neg(text: &str) -> Argument {
    Argument { arg: text.to_string(), next_to_parenthesis: false, negative: true }
}

fn exact(op: &Operation) -> (String, usize, usize) {
    assert!(op.calculable());
    let c = op.calculate();
    match c.outcome {
        Outcome::Exact(t) => (t, c.range_start, c.range_stop),
        Outcome::Float(_) => panic!("expected an exact outcome"),
    }
}

#[test]
fn exact_arithmetic() {
    assert_eq!(exact(&Operation::Addition { index: 1, arg1: a("1"), arg2: a("2") }), ("3".to_string(), 0, 3));
    assert_eq!(exact(&Operation::Multiplication { index: 2, arg1: a("12"), arg2: a("3") }), ("36".to_string(), 0, 4));
    assert_eq!(exact(&Operation::Division { index: 1, arg1: a("8"), arg2: a("2") }), ("4".to_string(), 0, 3));
    assert_eq!(exact(&Operation::Exponentiation { index: 1, arg1: a("2"), arg2: a("10") }), ("1024".to_string(), 0, 4));
    assert_eq!(exact(&Operation::Subtraction { index: 2, arg1: a("10"), arg2: a("9") }), ("1".to_string(), 0, 4));
}

#[test]
fn negative_results_are_put_in_parentheses() {
    assert_eq!(
        exact(&Operation::Exponentiation { index: 4, arg1: neg("-2"), arg2: a("3") }),
        ("(-8)".to_string(), 0, 6)
    );
    assert_eq!(exact(&Operation::Addition { index: 4, arg1: neg("-5"), arg2: a("3") }), ("(-2)".to_string(), 0, 6));
    assert_eq!(exact(&Operation::Multiplication { index: 1, arg1: a("2"), arg2: neg("-3") }), ("(-6)".to_string(), 0, 6));
}

#[test]
fn operands_next_to_parentheses_widen_the_range() {
    let op = Operation::Addition {
        index: 2,
        arg1: Argument { arg: "1".to_string(), next_to_parenthesis: true, negative: false },
        arg2: Argument { arg: "2".to_string(), next_to_parenthesis: true, negative: false },
    };
    assert_eq!(exact(&op), ("3".to_string(), 0, 5));
}

#[test]
fn overflow_and_division_by_zero_cannot_be_worked_out() {
    assert!(!Operation::Subtraction { index: 1, arg1: a("3"), arg2: a("10") }.calculable());
    assert!(!Operation::Addition { index: 20, arg1: a("18446744073709551615"), arg2: a("1") }.calculable());
    assert!(!Operation::Division { index: 1, arg1: a("1"), arg2: a("0") }.calculable());
    assert!(!Operation::Exponentiation { index: 1, arg1: a("10"), arg2: a("20") }.calculable());
    assert!(!Operation::Addition { index: 0, arg1: a("1"), arg2: a("2") }.calculable());
}

#[test]
fn floats_are_left_to_the_caller() {
    let c = Operation::Division { index: 1, arg1: a("7"), arg2: a("2") }.calculate();
    match c.outcome {
        Outcome::Float(FloatTask::Quotient { numerator, denominator }) => assert_eq!((numerator, denominator), (7, 2)),
        _ => panic!("expected a quotient"),
    }
    let d = Operation::Addition { index: 3, arg1: a("1.5"), arg2: a("1") }.calculate();
    match d.outcome {
        Outcome::Float(FloatTask::Decimal { kind, arg1, arg2 }) => {
            assert_eq!(kind, OpKind::Addition);
            assert_eq!((arg1.as_str(), arg2.as_str()), ("1.5", "1"));
        }
        _ => panic!("expected a decimal computation"),
    }
    assert_eq!((d.range_start, d.range_stop), (0, 5));
}

#[test]
fn no_operation() {
    let c = Operation::Zero.calculate();
    match c.outcome {
        Outcome::Exact(t) => assert_eq!(t, "lol"),
        _ => panic!("expected text"),
    }
    assert_eq!((c.range_start, c.range_stop), (1, 1));
}

#[test]
fn wrapping_negative_texts() {
    assert_eq!(wrap_negative("-3.5".to_string()), "(-3.5)");
    assert_eq!(wrap_negative("3.5".to_string()), "3.5");
}

#[test]
fn names_indices_and_precedence() {
    let mut op = Operation::Multiplication { index: 1, arg1: a("2"), arg2: a("3") };
    assert_eq!(op.to_string(), "Multiplication");
    assert_eq!(Operation::Zero.to_string(), "Zero");
    op.change_index(7);
    match &op {
        Operation::Multiplication { index, .. } => assert_eq!(*index, 7),
        _ => panic!("expected a multiplication"),
    }
    let plus = Operation::Addition { index: 0, arg1: a("2"), arg2: a("3") };
    let power = Operation::Exponentiation { index: 0, arg1: a("2"), arg2: a("3") };
    assert_eq!(plus.priority(), 1);
    assert_eq!(op.priority(), 2);
    assert_eq!(power.priority(), 3);
    assert_eq!(plus.partial_cmp(&op), Some(std::cmp::Ordering::Less));
    assert_eq!(power.partial_cmp(&op), Some(std::cmp::Ordering::Greater));
    assert_eq!(op.partial_cmp(&op.duplicate()), Some(std::cmp::Ordering::Equal));
    assert_eq!(Operation::Zero.partial_cmp(&Operation::Zero), Some(std::cmp::Ordering::Less));
    assert_eq!(plus.partial_cmp(&Operation::Zero), Some(std::cmp::Ordering::Greater));
}

#[test]
fn alike_operations() {
    let x = Operation::Addition { index: 1, arg1: a("2"), arg2: a("3") };
    let y = Operation::Addition { index: 9, arg1: a("2"), arg2: a("3") };
    let z = Operation::Subtraction { index: 1, arg1: a("2"), arg2: a("3") };
    assert!(x.eq(&y));
    assert!(!x.eq(&z));
    assert!(!Operation::Zero.eq(&Operation::Zero));
    assert!(a("5").eq(&a("5")));
    assert!(!a("5").eq(&a("6")));
    let n = Argument::new();
    assert_eq!((n.arg.as_str(), n.next_to_parenthesis, n.negative), ("", false, false));
}
