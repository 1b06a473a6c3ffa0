use calculator::operation::Operation;
use calculator::symbols::{Symbol, VecOperators, VecSymbols};

fn read(text: &str) -> VecSymbols {
    match VecSymbols::string_to_symbol(text.to_string()) {
        Ok(v) => v,
        Err(m) => panic!("{}", m),
    }
}

fn operator_chars(symbols: &[Symbol]) -> String {
    symbols.iter().map(|s| s.to_string()).collect()
}

#[test]
fn reading_and_writing_back() {
    let v = read(" 2*(3+4) ");
    assert_eq!(v.0.len(), 7);
    assert_eq!(v.to_string(), "2*(3+4)");
    let w = read("(-1.5)^2-(3)");
    assert_eq!(w.to_string(), "(-1.5)^2-(3)");
}

#[test]
fn unknown_symbols() {
    match VecSymbols::string_to_symbol("1+a".to_string()) {
        Err(m) => assert_eq!(m, "unknown symbol:a, index:2"),
        Ok(_) => panic!("expected an error"),
    }
    match VecSymbols::string_to_symbol("  x1".to_string()) {
        Err(m) => assert_eq!(m, "unknown symbol:x, index:0"),
        Ok(_) => panic!("expected an error"),
    }
}

#[test]
fn symbols_of_a_negative_number() {
    let v = read("(-5)+3");
    match &v.0[0] {
        Symbol::OpeningParenthesis { for_negative, parenthesis_number, checked } => {
            assert!(*for_negative);
            assert_eq!(*parenthesis_number, 0);
            assert!(!*checked);
        }
        _ => panic!("expected a parenthesis"),
    }
    match &v.0[1] {
        Symbol::Digit { chr } => assert_eq!(*chr, '-'),
        _ => panic!("expected the sign of a number"),
    }
    match &v.0[4] {
        Symbol::Operator { operation: Operation::Addition { index, .. }, parenthese_number } => {
            assert_eq!(*index, 4);
            assert_eq!(*parenthese_number, 0);
        }
        _ => panic!("expected an addition"),
    }
}

#[test]
fn numbers() {
    assert!(read("(-5)").is_number());
    assert!(read("12.5").is_number());
    assert!(!read("(5)").is_number());
    assert!(!read("1+2").is_number());
}

#[test]
fn operand_checks() {
    assert_eq!(read("1+").check_right_arg(1), Err("incorrect expression. chr:+, index:1".to_string()));
    assert_eq!(read("+1").check_left_arg(0), Err("incorrect expression. chr:+ index:0".to_string()));
    assert_eq!(
        read("(+)").check_operator(1),
        Err("incorrect expression. chr:(, index:0 incorrect expression. chr:), index:2".to_string())
    );
    assert_eq!(read("1+(-2)").check_operator(1), Ok(()));
}

#[test]
fn expression_checks() {
    assert_eq!(read("1+2").check_expression(), Ok(()));
    assert_eq!(read("5").check_expression(), Err("Its just a number".to_string()));
    assert_eq!(read("(1+2").check_expression(), Err("Extra '('".to_string()));
    assert_eq!(read("1+2)").check_expression(), Err("Extra ')'".to_string()));
}

#[test]
fn operators_and_their_order() {
    let v = read("2*(3+4)");
    let mut ops = VecOperators::get_operators_matrix(&v);
    assert_eq!(ops.1, 1);
    assert_eq!(operator_chars(&ops.0), "*+");
    let sorted = ops.sort();
    assert_eq!(operator_chars(&sorted), "+*");
    assert!(ops.0.is_empty());
}

#[test]
fn at_most_three_operators_per_level_are_ordered() {
    let v = read("1+2*3^2-4");
    let mut ops = VecOperators::get_operators_matrix(&v);
    assert_eq!(ops.1, 0);
    let sorted = ops.sort();
    assert_eq!(operator_chars(&sorted), "^*+");
    assert_eq!(operator_chars(&ops.0), "-");
    assert_eq!(sorted.len() + ops.0.len(), 4);
}

#[test]
fn first_operation_and_its_operands() {
    let v = read("2*(3+4)");
    match v.get_current_operation() {
        Operation::Addition { index, arg1, arg2 } => {
            assert_eq!(index, 4);
            assert_eq!(arg1.arg, "3");
            assert_eq!(arg2.arg, "4");
            assert!(arg1.next_to_parenthesis && arg2.next_to_parenthesis);
        }
        _ => panic!("expected an addition"),
    }
    let w = read("1+2*3");
    match w.get_current_operation() {
        Operation::Multiplication { index, .. } => assert_eq!(index, 3),
        _ => panic!("expected a multiplication"),
    }
    let z = read("12");
    assert!(matches!(z.get_current_operation(), Operation::Zero));
}

#[test]
fn extra_parentheses_are_dropped() {
    let mut v = read("((1+2))*3");
    let notes = v.check_extra_parentheses().unwrap();
    assert_eq!(notes, vec!["(1+2)*3".to_string()]);
    assert_eq!(v.to_string(), "(1+2)*3");
    let mut w = read("(1+2)*3");
    assert_eq!(w.check_extra_parentheses().unwrap(), Vec::<String>::new());
}

#[test]
fn symbols_alike() {
    let a = read("1+2");
    let b = a.duplicate();
    assert!(a.0[1].eq(&b.0[1]));
    assert!(!a.0[0].eq(&a.0[2]));
    assert_eq!(a.0[1].duplicate().to_string(), "+");
}

fn first_index(text: &str) -> usize {
    match read(text).get_current_operation() {
        Operation::Addition { index, .. }
        | Operation::Subtraction { index, .. }
        | Operation::Multiplication { index, .. }
        | Operation::Division { index, .. }
        | Operation::Exponentiation { index, .. } => index,
        Operation::Zero => usize::MAX,
    }
}

#[test]
fn deepest_then_strongest_then_leftmost() {
    assert_eq!(first_index("1-2-3"), 1);
    assert_eq!(first_index("2^3^2"), 1);
    assert_eq!(first_index("1+2^3*4"), 3);
    assert_eq!(first_index("2*(3-(4+5))"), 7);
    assert_eq!(first_index("(1+2)*(3*4)"), 8);
}

#[test]
fn removing_parentheses_keeps_the_order_of_operators() {
    let mut v = read("((1+2))*(3)");
    let before = VecOperators::get_operators_matrix(&v).sort();
    v.check_extra_parentheses().unwrap();
    let after = VecOperators::get_operators_matrix(&v).sort();
    assert_eq!(before.len(), after.len());
    for (x, y) in before.iter().zip(after.iter()) {
        assert!(x.eq(y));
    }
}

#[test]
fn exact_results_read_back() {
    for v in [0i64, -8, 123, -9223372036854775808] {
        let t = calculator::operation::wrap_negative(v.to_string());
        assert_eq!(read(&t).to_string(), t);
    }
}

#[test]
fn removing_parentheses_keeps_everything_else() {
    let strip = |t: &str| t.chars().filter(|c| *c != '(' && *c != ')').collect::<String>();
    for text in ["((1+2))*(3)", "(1+(2*3))", "2*((3+4))", "((2))+3"] {
        let mut v = read(text);
        v.check_extra_parentheses().unwrap();
        assert_eq!(strip(&v.to_string()), strip(text));
    }
}

#[test]
fn a_pair_search_that_finds_no_opening_drops_the_first_symbol() {
    let mut v = read("2+2*(((1-(2)^(-2)-2)))");
    assert_eq!(v.check_expression(), Ok(()));
    let notes = v.check_extra_parentheses().unwrap();
    assert_eq!(
        notes,
        vec!["2+2*(((1-2^(-2)-2)))".to_string(), "2+2*((1-2^(-2)-2))".to_string(), "+2*((1-2^(-2)-2)".to_string()]
    );
    assert_eq!(v.to_string(), "+2*((1-2^(-2)-2)");
}

#[test]
fn read_symbols_know_their_places() {
    let v = read("(1+2)*3");
    for (i, s) in v.0.iter().enumerate() {
        match s {
            Symbol::Operator { operation, .. } => match operation {
                Operation::Addition { index, arg1, arg2 } | Operation::Multiplication { index, arg1, arg2 } => {
                    assert_eq!(*index, i);
                    assert!(arg1.arg.is_empty() && arg2.arg.is_empty());
                }
                _ => panic!("unexpected operator"),
            },
            Symbol::OpeningParenthesis { checked, .. } | Symbol::ClosingParenthesis { checked, .. } => {
                assert!(!*checked)
            }
            Symbol::Digit { .. } => {}
        }
    }
}
