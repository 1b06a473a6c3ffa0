//! An expression as a sequence of symbols: digits, operators, and
//! parentheses numbered by how deeply they nest.
use vstd::prelude::*;
use crate::text::{is_digit, decimal, trim, chars_of, trimmed, string_of, push_char, index_text, is_white_space};
use crate::my_extension::{MyStringExtension, negative_opening};
use crate::operation::{
    OpKind, Operation, OperationView, Argument, ArgumentView, empty_argument, kind_char, same_operation,
    priority_of, with_index,
};

verus! {

/// One symbol of an expression.
pub enum Symbol {
    /// A digit, a decimal point, or the `-` of a negative number.
    Digit { chr: char },
    /// An operator, with the nesting depth of the parentheses around it.
    Operator { operation: Operation, parenthese_number: isize },
    /// `(`; `for_negative` when it belongs to a negative number such as `(-5)`.
    OpeningParenthesis { for_negative: bool, parenthesis_number: isize, checked: bool },
    /// `)`; `for_negative` when it closes a negative number.
    ClosingParenthesis { for_negative: bool, parenthesis_number: isize, checked: bool },
}

/// The model of a [`Symbol`].
pub enum SymbolView {
    Digit { chr: char },
    Operator { operation: OperationView, parenthese_number: int },
    OpeningParenthesis { for_negative: bool, parenthesis_number: int, checked: bool },
    ClosingParenthesis { for_negative: bool, parenthesis_number: int, checked: bool },
}

impl View for Symbol {
    type V = SymbolView;

    open spec fn view(&self) -> SymbolView {
        match self {
            Symbol::Digit { chr } => SymbolView::Digit { chr: *chr },
            Symbol::Operator { operation, parenthese_number } => SymbolView::Operator {
                operation: operation@,
                parenthese_number: *parenthese_number as int,
            },
            Symbol::OpeningParenthesis { for_negative, parenthesis_number, checked } =>
                SymbolView::OpeningParenthesis {
                for_negative: *for_negative,
                parenthesis_number: *parenthesis_number as int,
                checked: *checked,
            },
            Symbol::ClosingParenthesis { for_negative, parenthesis_number, checked } =>
                SymbolView::ClosingParenthesis {
                for_negative: *for_negative,
                parenthesis_number: *parenthesis_number as int,
                checked: *checked,
            },
        }
    }
}

/// The text of one symbol: its character, nothing for an empty operation.
pub open spec fn symbol_text(s: SymbolView) -> Seq<char> {
    match s {
        SymbolView::Digit { chr } => seq![chr],
        SymbolView::Operator { operation, .. } => match operation {
            OperationView::Zero => Seq::empty(),
            OperationView::Apply { kind, .. } => seq![kind_char(kind)],
        },
        SymbolView::OpeningParenthesis { .. } => seq!['('],
        SymbolView::ClosingParenthesis { .. } => seq![')'],
    }
}

/// The text of a sequence of symbols.
pub open spec fn symbols_text(v: Seq<SymbolView>) -> Seq<char>
    decreases v.len(),
{
    if v.len() == 0 {
        Seq::empty()
    } else {
        symbols_text(v.drop_last()) + symbol_text(v.last())
    }
}

/// Two symbols are alike: digits by their character, operators by their
/// operation, parentheses by kind, sign and depth.
pub open spec fn same_symbol(a: SymbolView, b: SymbolView) -> bool {
    match (a, b) {
        (SymbolView::Digit { chr: c1 }, SymbolView::Digit { chr: c2 }) => c1 == c2,
        (SymbolView::Operator { operation: o1, .. }, SymbolView::Operator { operation: o2, .. }) =>
            same_operation(o1, o2),
        (
            SymbolView::OpeningParenthesis { for_negative: f1, parenthesis_number: p1, .. },
            SymbolView::OpeningParenthesis { for_negative: f2, parenthesis_number: p2, .. },
        ) => f1 == f2 && p1 == p2,
        (
            SymbolView::ClosingParenthesis { for_negative: f1, parenthesis_number: p1, .. },
            SymbolView::ClosingParenthesis { for_negative: f2, parenthesis_number: p2, .. },
        ) => f1 == f2 && p1 == p2,
        _ => false,
    }
}

/// Two sequences of symbols are alike symbol by symbol.
pub open spec fn same_symbols(a: Seq<SymbolView>, b: Seq<SymbolView>) -> bool {
    a.len() == b.len() && forall|i: int| 0 <= i < a.len() ==> #[trigger] same_symbol(a[i], b[i])
}

impl Symbol {
    /// A copy of the symbol.
    pub fn duplicate(&self) -> (r: Symbol)
        ensures
            r@ == self@,
    {
        match self {
            Symbol::Digit { chr } => Symbol::Digit { chr: *chr },
            Symbol::Operator { operation, parenthese_number } => Symbol::Operator {
                operation: operation.duplicate(),
                parenthese_number: *parenthese_number,
            },
            Symbol::OpeningParenthesis { for_negative, parenthesis_number, checked } =>
                Symbol::OpeningParenthesis {
                for_negative: *for_negative,
                parenthesis_number: *parenthesis_number,
                checked: *checked,
            },
            Symbol::ClosingParenthesis { for_negative, parenthesis_number, checked } =>
                Symbol::ClosingParenthesis {
                for_negative: *for_negative,
                parenthesis_number: *parenthesis_number,
                checked: *checked,
            },
        }
    }

    /// Whether two symbols are alike.
    pub fn eq(&self, other: &Symbol) -> (r: bool)
        ensures
            r == same_symbol(self@, other@),
    {
        match (self, other) {
            (Symbol::Digit { chr: c1 }, Symbol::Digit { chr: c2 }) => *c1 == *c2,
            (Symbol::Operator { operation: o1, .. }, Symbol::Operator { operation: o2, .. }) =>
                o1.eq(o2),
            (
                Symbol::OpeningParenthesis { for_negative: f1, parenthesis_number: p1, .. },
                Symbol::OpeningParenthesis { for_negative: f2, parenthesis_number: p2, .. },
            ) => *f1 == *f2 && *p1 == *p2,
            (
                Symbol::ClosingParenthesis { for_negative: f1, parenthesis_number: p1, .. },
                Symbol::ClosingParenthesis { for_negative: f2, parenthesis_number: p2, .. },
            ) => *f1 == *f2 && *p1 == *p2,
            _ => false,
        }
    }

    /// Appends the text of the symbol to `out`.
    pub fn write_to(&self, out: &mut String)
        ensures
            final(out)@ == old(out)@ + symbol_text(self@),
    {
        match self {
            Symbol::Digit { chr } => push_char(out, *chr),
            Symbol::Operator { operation, .. } => match operation {
                Operation::Zero => {
                    assert(old(out)@ + symbol_text(self@) =~= old(out)@);
                },
                Operation::Addition { .. } => push_char(out, '+'),
                Operation::Subtraction { .. } => push_char(out, '-'),
                Operation::Multiplication { .. } => push_char(out, '*'),
                Operation::Division { .. } => push_char(out, '/'),
                Operation::Exponentiation { .. } => push_char(out, '^'),
            },
            Symbol::OpeningParenthesis { .. } => push_char(out, '('),
            Symbol::ClosingParenthesis { .. } => push_char(out, ')'),
        }
    }

    /// The text of the symbol.
    pub fn to_string(&self) -> (r: String)
        ensures
            r@ == symbol_text(self@),
    {
        let mut out = String::new();
        self.write_to(&mut out);
        assert(out@ =~= symbol_text(self@));
        out
    }
}

/// The symbols of an expression, in order.
pub struct VecSymbols(pub Vec<Symbol>);

impl View for VecSymbols {
    type V = Seq<SymbolView>;

    open spec fn view(&self) -> Seq<SymbolView> {
        self.0@.map_values(|s: Symbol| s@)
    }
}

impl VecSymbols {
    /// The text of the expression.
    pub fn to_string(&self) -> (r: String)
        ensures
            r@ == symbols_text(self@),
    {
        let mut out = String::new();
        let mut i: usize = 0;
        while i < self.0.len()
            invariant
                i <= self@.len(),
                self@.len() == self.0@.len(),
                out@ == symbols_text(self@.take(i as int)),
            decreases self.0.len() - i,
        {
            self.0[i].write_to(&mut out);
            assert(self@.take(i + 1).drop_last() == self@.take(i as int));
            i = i + 1;
        }
        assert(self@.take(self@.len() as int) == self@);
        out
    }

    /// A copy of the symbols.
    pub fn duplicate(&self) -> (r: VecSymbols)
        ensures
            r@ == self@,
    {
        let mut v: Vec<Symbol> = Vec::new();
        let mut i: usize = 0;
        while i < self.0.len()
            invariant
                i <= self.0@.len(),
                v@.len() == i,
                forall|j: int| 0 <= j < i ==> #[trigger] v@[j]@ == self.0@[j]@,
            decreases self.0.len() - i,
        {
            v.push(self.0[i].duplicate());
            i = i + 1;
        }
        let r = VecSymbols(v);
        assert(r@ =~= self@);
        r
    }
}


/// A character of a number: a digit or a decimal point.
pub open spec fn digit_like(c: char) -> bool {
    is_digit(c) || c == '.'
}

/// An operator character.
pub open spec fn operator_char(c: char) -> bool {
    c == '+' || c == '-' || c == '*' || c == '/' || c == '^'
}

/// A character that an expression may hold.
pub open spec fn valid_char(c: char) -> bool {
    digit_like(c) || operator_char(c) || c == '(' || c == ')'
}

/// Every character of `t` may stand in an expression.
pub open spec fn all_valid(t: Seq<char>) -> bool {
    forall|i: int| 0 <= i < t.len() ==> #[trigger] valid_char(t[i])
}

/// The operator that an operator character stands for.
pub open spec fn kind_of(c: char) -> OpKind {
    if c == '+' {
        OpKind::Addition
    } else if c == '-' {
        OpKind::Subtraction
    } else if c == '*' {
        OpKind::Multiplication
    } else if c == '/' {
        OpKind::Division
    } else {
        OpKind::Exponentiation
    }
}

/// The operation of `kind` at `index`, with no operands read yet.
pub open spec fn bare_operation(kind: OpKind, index: int) -> OperationView {
    OperationView::Apply { kind, index: index as usize, arg1: empty_argument(), arg2: empty_argument() }
}

/// Where reading an expression stands: the symbols so far, the nesting depth,
/// and whether a negative number's parenthesis is open.
pub struct ParseState {
    pub symbols: Seq<SymbolView>,
    pub level: int,
    pub negative: bool,
}

/// Reads the character at `i` of the text `t`.
pub open spec fn parse_step(t: Seq<char>, st: ParseState, i: int) -> ParseState {
    let c = t[i];
    if digit_like(c) || (c == '-' && st.negative) {
        ParseState { symbols: st.symbols.push(SymbolView::Digit { chr: c }), ..st }
    } else if operator_char(c) {
        ParseState {
            symbols: st.symbols.push(
                SymbolView::Operator { operation: bare_operation(kind_of(c), i), parenthese_number: st.level },
            ),
            ..st
        }
    } else if c == '(' {
        let opens_negative = negative_opening(t, i);
        let negative = st.negative || opens_negative;
        let level = if opens_negative { st.level } else { st.level + 1 };
        ParseState {
            symbols: st.symbols.push(
                SymbolView::OpeningParenthesis { for_negative: negative, parenthesis_number: level, checked: false },
            ),
            level,
            negative,
        }
    } else if c == ')' {
        ParseState {
            symbols: st.symbols.push(
                SymbolView::ClosingParenthesis {
                    for_negative: st.negative,
                    parenthesis_number: st.level,
                    checked: false,
                },
            ),
            level: if st.negative { st.level } else { st.level - 1 },
            negative: false,
        }
    } else {
        st
    }
}

/// The state after reading the first `k` characters of `t`.
pub open spec fn parse_prefix(t: Seq<char>, k: int) -> ParseState
    decreases k,
{
    if k <= 0 {
        ParseState { symbols: Seq::empty(), level: 0, negative: false }
    } else {
        parse_step(t, parse_prefix(t, k - 1), k - 1)
    }
}

/// The symbols of the (trimmed) text `t`, one per character.
pub open spec fn symbols_of(t: Seq<char>) -> Seq<SymbolView> {
    parse_prefix(t, t.len() as int).symbols
}

/// The message for a character that may not stand in an expression.
pub open spec fn unknown_symbol(c: char, i: int) -> Seq<char> {
    "unknown symbol:"@ + seq![c] + ", index:"@ + decimal(i as nat)
}

/// `i` is the first character of `t` that may not stand in an expression.
pub open spec fn first_invalid(t: Seq<char>, i: int) -> bool {
    0 <= i < t.len() && !valid_char(t[i]) && forall|j: int| 0 <= j < i ==> #[trigger] valid_char(t[j])
}

impl VecSymbols {
    /// Reads an expression: its text, trimmed, becomes one symbol per
    /// character; an unknown character is an error that names it and its index.
    pub fn string_to_symbol(string: String) -> (r: Result<VecSymbols, String>)
        requires
            string@.len() < isize::MAX,
        ensures
            r is Ok <==> all_valid(trim(string@)),
            r matches Ok(v) ==> v@ == symbols_of(trim(string@)),
            r matches Err(e) ==> exists|i: int|
                first_invalid(trim(string@), i) && e@ == unknown_symbol(trim(string@)[i], i),
    {
        let chars = chars_of(&string);
        let t = trimmed(&chars);
        let text = string_of(&t);
        let ghost tv = trim(string@);
        proof {
            crate::text::lemma_trim_len(string@);
        }
        let mut vector_symbols: Vec<Symbol> = Vec::new();
        let mut parenthese_number: isize = 0;
        let mut negative_flag = false;
        let mut index: usize = 0;
        while index < t.len()
            invariant
                tv == trim(string@),
                t@ == tv,
                text@ == tv,
                tv.len() < isize::MAX,
                index <= tv.len(),
                all_valid(tv.take(index as int)),
                ({
                    let st = parse_prefix(tv, index as int);
                    &&& vector_symbols@.map_values(|s: Symbol| s@) == st.symbols
                    &&& parenthese_number as int == st.level
                    &&& negative_flag == st.negative
                }),
                -(index as int) <= parenthese_number <= index,
            decreases t.len() - index,
        {
            let chr = t[index];
            let ghost before = vector_symbols@.map_values(|s: Symbol| s@);
            if ('0' <= chr && chr <= '9') || chr == '.' {
                vector_symbols.push(Symbol::Digit { chr });
            } else if chr == '+' {
                vector_symbols.push(
                    Symbol::Operator {
                        operation: Operation::Addition { index, arg1: Argument::new(), arg2: Argument::new() },
                        parenthese_number,
                    },
                );
            } else if chr == '-' {
                if negative_flag {
                    vector_symbols.push(Symbol::Digit { chr });
                } else {
                    vector_symbols.push(
                        Symbol::Operator {
                            operation: Operation::Subtraction {
                                index,
                                arg1: Argument::new(),
                                arg2: Argument::new(),
                            },
                            parenthese_number,
                        },
                    );
                }
            } else if chr == '*' {
                vector_symbols.push(
                    Symbol::Operator {
                        operation: Operation::Multiplication {
                            index,
                            arg1: Argument::new(),
                            arg2: Argument::new(),
                        },
                        parenthese_number,
                    },
                );
            } else if chr == '/' {
                vector_symbols.push(
                    Symbol::Operator {
                        operation: Operation::Division { index, arg1: Argument::new(), arg2: Argument::new() },
                        parenthese_number,
                    },
                );
            } else if chr == '^' {
                vector_symbols.push(
                    Symbol::Operator {
                        operation: Operation::Exponentiation {
                            index,
                            arg1: Argument::new(),
                            arg2: Argument::new(),
                        },
                        parenthese_number,
                    },
                );
            } else if chr == '(' {
                if text.is_negative_opening_parenthesis(index) {
                    negative_flag = true;
                } else {
                    parenthese_number += 1;
                }
                vector_symbols.push(
                    Symbol::OpeningParenthesis {
                        for_negative: negative_flag,
                        parenthesis_number: parenthese_number,
                        checked: false,
                    },
                );
            } else if chr == ')' {
                vector_symbols.push(
                    Symbol::ClosingParenthesis {
                        for_negative: negative_flag,
                        parenthesis_number: parenthese_number,
                        checked: false,
                    },
                );
                if negative_flag {
                    negative_flag = false;
                } else {
                    parenthese_number -= 1;
                }
            } else {
                let mut message = String::from_str("unknown symbol:");
                push_char(&mut message, chr);
                message.append(", index:");
                let number = index_text(index);
                message.append(number.as_str());
                proof {
                    assert(first_invalid(tv, index as int)) by {
                        assert forall|j: int| 0 <= j < index implies #[trigger] valid_char(tv[j]) by {
                            assert(tv.take(index as int)[j] == tv[j]);
                        }
                    }
                    assert(message@ =~= unknown_symbol(tv[index as int], index as int));
                    assert(!valid_char(tv[index as int]));
                }
                return Err(message);
            }
            proof {
                assert(vector_symbols@.map_values(|s: Symbol| s@) =~= parse_prefix(tv, index + 1).symbols);
                assert forall|j: int| 0 <= j < index + 1 implies #[trigger] valid_char(tv.take(index + 1)[j]) by {
                    if j < index {
                        assert(tv.take(index + 1)[j] == tv.take(index as int)[j]);
                    }
                }
            }
            index = index + 1;
        }
        assert(tv.take(tv.len() as int) == tv);
        Ok(VecSymbols(vector_symbols))
    }
}


/// No operator and no parenthesis other than those of negative numbers:
/// the expression is just a number.
pub open spec fn is_number(v: Seq<SymbolView>) -> bool {
    forall|i: int|
        0 <= i < v.len() ==> match #[trigger] v[i] {
            SymbolView::Operator { .. } => false,
            SymbolView::OpeningParenthesis { for_negative, .. } => for_negative,
            _ => true,
        }
}

/// The message for a symbol that may not stand next to an operator.
pub open spec fn bad_symbol(s: SymbolView, k: int) -> Seq<char> {
    "incorrect expression. chr:"@ + symbol_text(s) + ", index:"@ + decimal(k as nat)
}

/// Scanning rightwards from `k`: the index of the first symbol that cannot
/// begin a right operand, if one comes before a digit or a negative number.
pub open spec fn right_blocker(v: Seq<SymbolView>, k: int) -> Option<int>
    decreases v.len() - k,
{
    if k < 0 || k >= v.len() {
        None
    } else {
        match v[k] {
            SymbolView::Digit { .. } => None,
            SymbolView::OpeningParenthesis { for_negative, .. } => if for_negative {
                None
            } else {
                right_blocker(v, k + 1)
            },
            _ => Some(k),
        }
    }
}

/// Scanning leftwards from `k - 1`: the index of the first symbol that cannot
/// end a left operand, if one comes before a digit or a negative number.
pub open spec fn left_blocker(v: Seq<SymbolView>, k: int) -> Option<int>
    decreases k,
{
    if k <= 0 || k > v.len() {
        None
    } else {
        match v[k - 1] {
            SymbolView::Digit { .. } => None,
            SymbolView::ClosingParenthesis { for_negative, .. } => if for_negative {
                None
            } else {
                left_blocker(v, k - 1)
            },
            _ => Some(k - 1),
        }
    }
}

/// Whether the operator at `io` has a right operand.
pub open spec fn right_arg_check(v: Seq<SymbolView>, io: int) -> Result<(), Seq<char>> {
    if io == v.len() - 1 {
        Err(bad_symbol(v[io], io))
    } else {
        match right_blocker(v, io + 1) {
            Some(k) => Err(bad_symbol(v[k], k)),
            None => Ok(()),
        }
    }
}

/// Whether the operator at `io` has a left operand.
pub open spec fn left_arg_check(v: Seq<SymbolView>, io: int) -> Result<(), Seq<char>> {
    if io == 0 {
        Err("incorrect expression. chr:"@ + symbol_text(v[0]) + " index:"@ + decimal(0))
    } else {
        match left_blocker(v, io) {
            Some(k) => Err(bad_symbol(v[k], k)),
            None => Ok(()),
        }
    }
}

/// Whether the operator at `io` has both operands; both messages, joined by a
/// space, when neither is there.
pub open spec fn operator_check(v: Seq<SymbolView>, io: int) -> Result<(), Seq<char>> {
    match (left_arg_check(v, io), right_arg_check(v, io)) {
        (Ok(_), Ok(_)) => Ok(()),
        (Ok(_), Err(e)) => Err(e),
        (Err(e), Ok(_)) => Err(e),
        (Err(e1), Err(e2)) => Err(e1 + " "@ + e2),
    }
}

/// Checks the symbols from `k` on, with `count` parentheses open: each
/// operator's operands, and that parentheses match.
pub open spec fn balance_check(v: Seq<SymbolView>, k: int, count: int) -> Result<(), Seq<char>>
    decreases v.len() - k,
{
    if k < 0 || k >= v.len() {
        if count != 0 {
            Err("Extra '('"@)
        } else {
            Ok(())
        }
    } else {
        match v[k] {
            SymbolView::Operator { operation, .. } => match operation {
                OperationView::Zero => Err("unknown operator"@),
                OperationView::Apply { index, .. } => match operator_check(v, index as int) {
                    Err(e) => Err(e),
                    Ok(_) => balance_check(v, k + 1, count),
                },
            },
            SymbolView::OpeningParenthesis { for_negative, .. } => if for_negative {
                balance_check(v, k + 1, count)
            } else {
                balance_check(v, k + 1, count + 1)
            },
            SymbolView::ClosingParenthesis { for_negative, .. } => if for_negative {
                balance_check(v, k + 1, count)
            } else if count == 0 {
                Err("Extra ')'"@)
            } else {
                balance_check(v, k + 1, count - 1)
            },
            _ => balance_check(v, k + 1, count),
        }
    }
}

/// Whether the symbols form an expression that can be worked out.
pub open spec fn expression_check(v: Seq<SymbolView>) -> Result<(), Seq<char>> {
    if is_number(v) {
        Err("Its just a number"@)
    } else {
        balance_check(v, 0, 0)
    }
}

/// Every operator knows an index within the symbols, or just past them.
pub open spec fn indices_in_range(v: Seq<SymbolView>) -> bool {
    forall|i: int|
        0 <= i < v.len() ==> match #[trigger] v[i] {
            SymbolView::Operator { operation: OperationView::Apply { index, .. }, .. } => index <= v.len()
                && index < usize::MAX,
            _ => true,
        }
}

/// The message for a symbol that may not stand next to an operator.
fn bad_symbol_message(s: &Symbol, k: usize, comma: bool) -> (r: String)
    ensures
        comma ==> r@ == bad_symbol(s@, k as int),
        !comma ==> r@ == "incorrect expression. chr:"@ + symbol_text(s@) + " index:"@ + decimal(
            k as nat,
        ),
{
    let mut message = String::from_str("incorrect expression. chr:");
    s.write_to(&mut message);
    if comma {
        message.append(", index:");
    } else {
        message.append(" index:");
    }
    let number = index_text(k);
    message.append(number.as_str());
    message
}

impl VecSymbols {
    /// Whether the expression is just a number.
    pub fn is_number(&self) -> (r: bool)
        ensures
            r == is_number(self@),
    {
        let mut i: usize = 0;
        while i < self.0.len()
            invariant
                i <= self@.len() == self.0@.len(),
                forall|j: int|
                    0 <= j < i ==> match #[trigger] self@[j] {
                        SymbolView::Operator { .. } => false,
                        SymbolView::OpeningParenthesis { for_negative, .. } => for_negative,
                        _ => true,
                    },
            decreases self.0.len() - i,
        {
            match &self.0[i] {
                Symbol::Operator { .. } => {
                    assert(!is_number(self@)) by {
                        assert(self@[i as int] is Operator);
                    }
                    return false;
                },
                Symbol::OpeningParenthesis { for_negative, .. } => {
                    if !*for_negative {
                        assert(!is_number(self@)) by {
                            assert(self@[i as int] is OpeningParenthesis);
                        }
                        return false;
                    }
                },
                _ => {},
            }
            i = i + 1;
        }
        true
    }

    /// Whether the operator at `index_operator` has a right operand.
    pub fn check_right_arg(&self, index_operator: usize) -> (r: Result<(), String>)
        requires
            self@.len() > 0,
            index_operator < usize::MAX,
        ensures
            match r {
                Ok(_) => right_arg_check(self@, index_operator as int) is Ok,
                Err(e) => right_arg_check(self@, index_operator as int) == Err::<(), Seq<char>>(e@),
            },
    {
        if index_operator == self.0.len() - 1 {
            return Err(bad_symbol_message(&self.0[index_operator], index_operator, true));
        }
        if index_operator >= self.0.len() {
            return Ok(());
        }
        let mut k: usize = index_operator + 1;
        while k < self.0.len()
            invariant
                index_operator < k <= self@.len() == self.0@.len(),
                right_blocker(self@, index_operator + 1) == right_blocker(self@, k as int),
            decreases self.0.len() - k,
        {
            match &self.0[k] {
                Symbol::Digit { .. } => {
                    return Ok(());
                },
                Symbol::OpeningParenthesis { for_negative, .. } => {
                    if *for_negative {
                        return Ok(());
                    }
                },
                _ => {
                    return Err(bad_symbol_message(&self.0[k], k, true));
                },
            }
            k = k + 1;
        }
        Ok(())
    }

    /// Whether the operator at `index_operator` has a left operand.
    pub fn check_left_arg(&self, index_operator: usize) -> (r: Result<(), String>)
        requires
            self@.len() > 0,
            index_operator <= self@.len(),
        ensures
            match r {
                Ok(_) => left_arg_check(self@, index_operator as int) is Ok,
                Err(e) => left_arg_check(self@, index_operator as int) == Err::<(), Seq<char>>(e@),
            },
    {
        if index_operator == 0 {
            return Err(bad_symbol_message(&self.0[0], 0, false));
        }
        let mut k: usize = index_operator;
        while k > 0
            invariant
                k <= index_operator <= self@.len() == self.0@.len(),
                left_blocker(self@, index_operator as int) == left_blocker(self@, k as int),
            decreases k,
        {
            match &self.0[k - 1] {
                Symbol::Digit { .. } => {
                    return Ok(());
                },
                Symbol::ClosingParenthesis { for_negative, .. } => {
                    if *for_negative {
                        return Ok(());
                    }
                },
                _ => {
                    return Err(bad_symbol_message(&self.0[k - 1], k - 1, true));
                },
            }
            k = k - 1;
        }
        Ok(())
    }

    /// Whether the operator at `index_operator` has both operands.
    pub fn check_operator(&self, index_operator: usize) -> (r: Result<(), String>)
        requires
            self@.len() > 0,
            index_operator <= self@.len(),
            index_operator < usize::MAX,
        ensures
            match r {
                Ok(_) => operator_check(self@, index_operator as int) is Ok,
                Err(e) => operator_check(self@, index_operator as int) == Err::<(), Seq<char>>(e@),
            },
    {
        match (self.check_left_arg(index_operator), self.check_right_arg(index_operator)) {
            (Ok(()), Ok(())) => Ok(()),
            (Ok(()), Err(e)) => Err(e),
            (Err(e), Ok(())) => Err(e),
            (Err(e1), Err(e2)) => {
                let mut message = e1;
                message.append(" ");
                message.append(e2.as_str());
                Err(message)
            },
        }
    }

    /// Whether the symbols form an expression that can be worked out: not just
    /// a number, every operator with both operands, parentheses matched.
    pub fn check_expression(&self) -> (r: Result<(), String>)
        requires
            indices_in_range(self@),
        ensures
            match r {
                Ok(_) => expression_check(self@) is Ok,
                Err(e) => expression_check(self@) == Err::<(), Seq<char>>(e@),
            },
    {
        if self.is_number() {
            return Err(String::from_str("Its just a number"));
        }
        let mut parenthesis_number: usize = 0;
        let mut k: usize = 0;
        while k < self.0.len()
            invariant
                k <= self@.len() == self.0@.len(),
                parenthesis_number <= k,
                indices_in_range(self@),
                !is_number(self@),
                balance_check(self@, 0, 0) == balance_check(self@, k as int, parenthesis_number as int),
            decreases self.0.len() - k,
        {
            match &self.0[k] {
                Symbol::Operator { operation, .. } => {
                    match operation {
                        Operation::Addition { index, .. }
                        | Operation::Subtraction { index, .. }
                        | Operation::Multiplication { index, .. }
                        | Operation::Division { index, .. }
                        | Operation::Exponentiation { index, .. } => {
                            assert(*index <= self@.len() && *index < usize::MAX) by {
                                assert(self@[k as int] is Operator);
                            }
                            match self.check_operator(*index) {
                                Ok(()) => {},
                                Err(e) => {
                                    return Err(e);
                                },
                            }
                        },
                        Operation::Zero => {
                            return Err(String::from_str("unknown operator"));
                        },
                    }
                },
                Symbol::OpeningParenthesis { for_negative, .. } => {
                    if !*for_negative {
                        parenthesis_number += 1;
                    }
                },
                Symbol::ClosingParenthesis { for_negative, .. } => {
                    if !*for_negative {
                        if parenthesis_number == 0 {
                            return Err(String::from_str("Extra ')'"));
                        } else {
                            parenthesis_number -= 1;
                        }
                    }
                },
                _ => {},
            }
            k = k + 1;
        }
        if parenthesis_number != 0 {
            return Err(String::from_str("Extra '('"));
        }
        Ok(())
    }
}


/// The right operand of the operator before index `k`: digits read
/// rightwards, through the parentheses of a negative number, up to a
/// parenthesis of the operand's group or anything else.
pub open spec fn right_operand(v: Seq<SymbolView>, k: int) -> ArgumentView
    decreases v.len() - k,
{
    if k < 0 || k >= v.len() {
        empty_argument()
    } else {
        match v[k] {
            SymbolView::Digit { chr } => {
                let r = right_operand(v, k + 1);
                ArgumentView { arg: seq![chr] + r.arg, ..r }
            },
            SymbolView::ClosingParenthesis { for_negative, .. } => if for_negative {
                ArgumentView { negative: true, ..right_operand(v, k + 1) }
            } else {
                ArgumentView { arg: Seq::empty(), next_to_parenthesis: true, negative: false }
            },
            SymbolView::OpeningParenthesis { for_negative, .. } => if for_negative {
                ArgumentView { negative: true, ..right_operand(v, k + 1) }
            } else {
                empty_argument()
            },
            _ => empty_argument(),
        }
    }
}

/// The left operand of the operator at index `k`: digits read leftwards from
/// `k - 1`, through the parentheses of a negative number and closing
/// parentheses, up to an opening parenthesis of the operand's group or an
/// operator.
pub open spec fn left_operand(v: Seq<SymbolView>, k: int) -> ArgumentView
    decreases k,
{
    if k <= 0 || k > v.len() {
        empty_argument()
    } else {
        match v[k - 1] {
            SymbolView::Digit { chr } => {
                let r = left_operand(v, k - 1);
                ArgumentView { arg: r.arg.push(chr), ..r }
            },
            SymbolView::OpeningParenthesis { for_negative, .. } => if for_negative {
                ArgumentView { negative: true, ..left_operand(v, k - 1) }
            } else {
                ArgumentView { arg: Seq::empty(), next_to_parenthesis: true, negative: false }
            },
            SymbolView::ClosingParenthesis { for_negative, .. } => if for_negative {
                ArgumentView { negative: true, ..left_operand(v, k - 1) }
            } else {
                left_operand(v, k - 1)
            },
            _ => empty_argument(),
        }
    }
}

/// The operation with the given operands (nothing changes for `Zero`).
pub open spec fn with_operands(op: OperationView, arg1: ArgumentView, arg2: ArgumentView) -> OperationView {
    match op {
        OperationView::Zero => OperationView::Zero,
        OperationView::Apply { kind, index, .. } => OperationView::Apply { kind, index, arg1, arg2 },
    }
}

/// The operation at index `index` of the symbols, with its operands read.
pub open spec fn operation_with_operands(op: OperationView, v: Seq<SymbolView>, index: int) -> OperationView {
    with_operands(op, left_operand(v, index), right_operand(v, index + 1))
}

/// Which operator to work out next, after looking at the first `k` symbols:
/// the deepest nesting level seen, the operation chosen there, and its index.
pub struct Selection {
    pub level: int,
    pub operation: OperationView,
    pub index: int,
}

/// An operator is taken when it is nested deeper than the one chosen so far,
/// or as deep and binding more strongly.
pub open spec fn selection(v: Seq<SymbolView>, k: int) -> Selection
    decreases k,
{
    if k <= 0 || k > v.len() {
        Selection { level: 0, operation: OperationView::Zero, index: 0 }
    } else {
        let s = selection(v, k - 1);
        match v[k - 1] {
            SymbolView::Operator { operation, parenthese_number } => if parenthese_number > s.level
                || (priority_of(operation) > priority_of(s.operation) && parenthese_number == s.level) {
                Selection { level: parenthese_number, operation, index: k - 1 }
            } else {
                s
            },
            _ => s,
        }
    }
}

/// The operation to work out next, with its operands and index.
pub open spec fn current_operation(v: Seq<SymbolView>) -> OperationView {
    let s = selection(v, v.len() as int);
    with_index(operation_with_operands(s.operation, v, s.index), s.index as usize)
}

impl Operation {
    /// Reads the left operand of the operator at `index_operator`.
    pub fn get_left_arg(expression: &VecSymbols, index_operator: &usize) -> (r: Argument)
        requires
            *index_operator <= expression@.len(),
        ensures
            r@ == left_operand(expression@, *index_operator as int),
    {
        let v = &expression.0;
        let io = *index_operator;
        let mut arg1 = String::new();
        let mut next_to_parenthesis = false;
        let mut negative = false;
        let mut k: usize = io;
        while k > 0
            invariant_except_break
                k <= io <= expression@.len() == v@.len(),
                v@.map_values(|s: Symbol| s@) == expression@,
                left_operand(expression@, io as int).arg == left_operand(expression@, k as int).arg
                    + arg1@.reverse(),
                left_operand(expression@, io as int).negative == (negative || left_operand(
                    expression@,
                    k as int,
                ).negative),
                left_operand(expression@, io as int).next_to_parenthesis == left_operand(
                    expression@,
                    k as int,
                ).next_to_parenthesis,
                !next_to_parenthesis,
            ensures
                left_operand(expression@, io as int) == (ArgumentView {
                    arg: arg1@.reverse(),
                    next_to_parenthesis,
                    negative,
                }),
            decreases k,
        {
            let ghost after = left_operand(expression@, k - 1);
            let ghost collected = arg1@;
            match &v[k - 1] {
                Symbol::Digit { chr } => {
                    push_char(&mut arg1, *chr);
                    assert(arg1@.reverse() =~= seq![*chr] + collected.reverse());
                    assert(after.arg + arg1@.reverse() =~= after.arg.push(*chr) + collected.reverse());
                },
                Symbol::OpeningParenthesis { for_negative, .. } => {
                    if *for_negative {
                        negative = true;
                    } else {
                        next_to_parenthesis = true;
                        assert(arg1@.reverse() =~= Seq::<char>::empty() + arg1@.reverse());
                        break;
                    }
                },
                Symbol::ClosingParenthesis { for_negative, .. } => {
                    if *for_negative {
                        negative = true;
                    }
                },
                _ => {
                    assert(arg1@.reverse() =~= Seq::<char>::empty() + arg1@.reverse());
                    break;
                },
            }
            k = k - 1;
        }
        proof {
            if k == 0 {
                assert(arg1@.reverse() =~= Seq::<char>::empty() + arg1@.reverse());
            }
        }
        arg1.reverse();
        Argument { arg: arg1, next_to_parenthesis, negative }
    }

    /// Reads the right operand of the operator at `index_operator`.
    pub fn get_right_arg(expression: &VecSymbols, index_operator: &usize) -> (r: Argument)
        requires
            *index_operator < usize::MAX,
        ensures
            r@ == right_operand(expression@, *index_operator + 1),
    {
        let v = &expression.0;
        let io = *index_operator;
        let mut arg2 = String::new();
        let mut negative = false;
        let mut next_to_parenthesis = false;
        let n = v.len();
        assert(expression@.len() == n);
        if io >= n {
            return Argument { arg: arg2, next_to_parenthesis, negative };
        }
        let mut k: usize = io + 1;
        while k < v.len()
            invariant_except_break
                io < k <= expression@.len() == v@.len(),
                v@.map_values(|s: Symbol| s@) == expression@,
                right_operand(expression@, io + 1).arg == arg2@ + right_operand(expression@, k as int).arg,
                right_operand(expression@, io + 1).negative == (negative || right_operand(
                    expression@,
                    k as int,
                ).negative),
                right_operand(expression@, io + 1).next_to_parenthesis == right_operand(
                    expression@,
                    k as int,
                ).next_to_parenthesis,
                !next_to_parenthesis,
            ensures
                right_operand(expression@, io + 1) == (ArgumentView {
                    arg: arg2@,
                    next_to_parenthesis,
                    negative,
                }),
            decreases v.len() - k,
        {
            let ghost after = right_operand(expression@, k + 1);
            let ghost collected = arg2@;
            match &v[k] {
                Symbol::Digit { chr } => {
                    push_char(&mut arg2, *chr);
                    assert(arg2@ + after.arg =~= collected + (seq![*chr] + after.arg));
                },
                Symbol::ClosingParenthesis { for_negative, .. } => {
                    if *for_negative {
                        negative = true;
                    } else {
                        next_to_parenthesis = true;
                        assert(arg2@ + Seq::<char>::empty() =~= arg2@);
                        break;
                    }
                },
                Symbol::OpeningParenthesis { for_negative, .. } => {
                    if *for_negative {
                        negative = true;
                    } else {
                        assert(arg2@ + Seq::<char>::empty() =~= arg2@);
                        break;
                    }
                },
                _ => {
                    assert(arg2@ + Seq::<char>::empty() =~= arg2@);
                    break;
                },
            }
            k = k + 1;
        }
        proof {
            if k == v.len() {
                assert(arg2@ + Seq::<char>::empty() =~= arg2@);
            }
        }
        Argument { arg: arg2, next_to_parenthesis, negative }
    }

    /// Reads both operands of the operation at `index_operator`.
    pub fn get_args(&mut self, expression: &VecSymbols, index_operator: usize)
        requires
            index_operator <= expression@.len(),
            index_operator < usize::MAX,
        ensures
            final(self)@ == operation_with_operands(old(self)@, expression@, index_operator as int),
    {
        match self {
            Operation::Zero => {},
            _ => {
                let left = Self::get_left_arg(expression, &index_operator);
                let right = Self::get_right_arg(expression, &index_operator);
                match self {
                    Operation::Addition { arg1, arg2, .. } => {
                        *arg1 = left;
                        *arg2 = right;
                    },
                    Operation::Subtraction { arg1, arg2, .. } => {
                        *arg1 = left;
                        *arg2 = right;
                    },
                    Operation::Multiplication { arg1, arg2, .. } => {
                        *arg1 = left;
                        *arg2 = right;
                    },
                    Operation::Division { arg1, arg2, .. } => {
                        *arg1 = left;
                        *arg2 = right;
                    },
                    Operation::Exponentiation { arg1, arg2, .. } => {
                        *arg1 = left;
                        *arg2 = right;
                    },
                    Operation::Zero => {},
                }
            },
        }
    }
}

impl VecSymbols {
    /// The operation to work out next: the most deeply nested operator, and
    /// among those the one that binds most strongly, leftmost first; with
    /// its operands read and its index set. `Zero` when there is none.
    pub fn get_current_operation(&self) -> (r: Operation)
        ensures
            r@ == current_operation(self@),
    {
        let mut max_parenthese_number: isize = 0;
        let mut current_operation = Operation::Zero;
        let mut current_operation_index: usize = 0;
        let mut k: usize = 0;
        while k < self.0.len()
            invariant
                k <= self@.len() == self.0@.len(),
                ({
                    let s = selection(self@, k as int);
                    &&& s.level == max_parenthese_number as int
                    &&& s.operation == current_operation@
                    &&& s.index == current_operation_index as int
                }),
                current_operation_index <= k,
                k > 0 ==> current_operation_index < k,
            decreases self.0.len() - k,
        {
            match &self.0[k] {
                Symbol::Operator { operation, parenthese_number } => {
                    if *parenthese_number > max_parenthese_number || (operation.priority()
                        > current_operation.priority() && *parenthese_number
                        == max_parenthese_number) {
                        current_operation = operation.duplicate();
                        max_parenthese_number = *parenthese_number;
                        current_operation_index = k;
                    }
                },
                _ => {},
            }
            k = k + 1;
        }
        if self.0.len() > 0 {
            current_operation.get_args(self, current_operation_index);
        } else {
            assert(current_operation@ == OperationView::Zero);
        }
        current_operation.change_index(current_operation_index);
        current_operation
    }
}


/// The operators of an expression, in order.
pub open spec fn operators_of(v: Seq<SymbolView>) -> Seq<SymbolView>
    decreases v.len(),
{
    if v.len() == 0 {
        Seq::empty()
    } else if v.last() is Operator {
        operators_of(v.drop_last()).push(v.last())
    } else {
        operators_of(v.drop_last())
    }
}

/// The deepest nesting level of an operator, and at least zero.
pub open spec fn max_level(v: Seq<SymbolView>) -> int
    decreases v.len(),
{
    if v.len() == 0 {
        0
    } else {
        let m = max_level(v.drop_last());
        match v.last() {
            SymbolView::Operator { parenthese_number, .. } => if parenthese_number > m {
                parenthese_number
            } else {
                m
            },
            _ => m,
        }
    }
}

/// Which operators a stage of the ordering takes: `^` first, then also `*`
/// and `/`, then also `+` and `-`.
pub open spec fn stage_accepts(op: OperationView, stage: int) -> bool {
    match op {
        OperationView::Zero => false,
        OperationView::Apply { kind, .. } => kind == OpKind::Exponentiation || (stage >= 1 && (kind
            == OpKind::Multiplication || kind == OpKind::Division)) || (stage >= 2 && (kind
            == OpKind::Addition || kind == OpKind::Subtraction)),
    }
}

/// An operator at nesting `level` that `stage` takes.
pub open spec fn accepted(s: SymbolView, level: int, stage: int) -> bool {
    match s {
        SymbolView::Operator { operation, parenthese_number } => parenthese_number == level
            && stage_accepts(operation, stage),
        _ => false,
    }
}

/// The first index from `k` on of an operator that `stage` takes at `level`.
pub open spec fn first_accepted(ops: Seq<SymbolView>, level: int, stage: int, k: int) -> Option<int>
    decreases ops.len() - k,
{
    if k < 0 || k >= ops.len() {
        None
    } else if accepted(ops[k], level, stage) {
        Some(k)
    } else {
        first_accepted(ops, level, stage, k + 1)
    }
}

/// One stage of the ordering: the first operator it takes, moved out.
pub open spec fn pick(ops: Seq<SymbolView>, level: int, stage: int) -> (Seq<SymbolView>, Seq<SymbolView>) {
    match first_accepted(ops, level, stage, 0) {
        Some(i) => (seq![ops[i]], ops.remove(i)),
        None => (Seq::empty(), ops),
    }
}

/// The ordering of operators from nesting `level` down to zero: at each
/// level three stages, each taking at most one operator; what is taken, and
/// what is left.
pub open spec fn sorted_from(ops: Seq<SymbolView>, level: int) -> (Seq<SymbolView>, Seq<SymbolView>)
    decreases level + 1,
{
    if level < 0 {
        (Seq::empty(), ops)
    } else {
        let (r1, o1) = pick(ops, level, 0);
        let (r2, o2) = pick(o1, level, 1);
        let (r3, o3) = pick(o2, level, 2);
        let (rest, left) = sorted_from(o3, level - 1);
        (r1 + r2 + r3 + rest, left)
    }
}

/// The ordered operators of an expression.
pub open spec fn sorted_operators(v: Seq<SymbolView>) -> Seq<SymbolView> {
    sorted_from(operators_of(v), max_level(v)).0
}

/// The operators of an expression and their deepest nesting level.
pub struct VecOperators(pub Vec<Symbol>, pub usize);

impl VecOperators {
    /// The model of the operators.
    pub open spec fn operators(&self) -> Seq<SymbolView> {
        self.0@.map_values(|s: Symbol| s@)
    }

    /// Collects the operators of an expression and their deepest nesting level.
    pub fn get_operators_matrix(expression: &VecSymbols) -> (r: VecOperators)
        ensures
            r.operators() == operators_of(expression@),
            r.1 as int == max_level(expression@),
            r.1 <= isize::MAX,
    {
        let v = &expression.0;
        let mut operators_matrix: Vec<Symbol> = Vec::new();
        let mut max_parentheses_number: isize = 0;
        let mut k: usize = 0;
        while k < v.len()
            invariant
                k <= v@.len(),
                v@.map_values(|s: Symbol| s@) == expression@,
                operators_matrix@.map_values(|s: Symbol| s@) == operators_of(expression@.take(k as int)),
                max_parentheses_number as int == max_level(expression@.take(k as int)),
                max_parentheses_number >= 0,
            decreases v.len() - k,
        {
            assert(expression@.take(k + 1).drop_last() == expression@.take(k as int));
            match &v[k] {
                Symbol::Operator { parenthese_number, .. } => {
                    operators_matrix.push(v[k].duplicate());
                    if *parenthese_number > max_parentheses_number {
                        max_parentheses_number = *parenthese_number;
                    }
                },
                _ => {},
            }
            assert(operators_matrix@.map_values(|s: Symbol| s@) =~= operators_of(
                expression@.take(k + 1),
            ));
            k = k + 1;
        }
        assert(expression@.take(v@.len() as int) == expression@);
        VecOperators(operators_matrix, max_parentheses_number as usize)
    }

    /// Moves out the first operator that `stage` takes at `level`.
    fn pick_one(ops: &mut Vec<Symbol>, level: isize, stage: u8) -> (r: Option<Symbol>)
        ensures
            ({
                let (taken, left) = pick(old(ops)@.map_values(|s: Symbol| s@), level as int, stage as int);
                &&& final(ops)@.map_values(|s: Symbol| s@) == left
                &&& match r {
                    Some(s) => taken == seq![s@],
                    None => taken.len() == 0,
                }
            }),
    {
        let ghost start = ops@.map_values(|s: Symbol| s@);
        let mut k: usize = 0;
        while k < ops.len()
            invariant
                k <= ops@.len(),
                ops@.map_values(|s: Symbol| s@) == start,
                start == old(ops)@.map_values(|s: Symbol| s@),
                first_accepted(start, level as int, stage as int, 0) == first_accepted(
                    start,
                    level as int,
                    stage as int,
                    k as int,
                ),
            decreases ops.len() - k,
        {
            let take = match &ops[k] {
                Symbol::Operator { operation, parenthese_number } => *parenthese_number == level && match operation {
                    Operation::Exponentiation { .. } => true,
                    Operation::Multiplication { .. } | Operation::Division { .. } => stage >= 1,
                    Operation::Addition { .. } | Operation::Subtraction { .. } => stage >= 2,
                    Operation::Zero => false,
                },
                _ => false,
            };
            assert(take == accepted(start[k as int], level as int, stage as int));
            if take {
                let s = ops.remove(k);
                assert(ops@.map_values(|s: Symbol| s@) =~= start.remove(k as int));
                assert(s@ == start[k as int]);
                assert(first_accepted(start, level as int, stage as int, 0) == Some(k as int));
                return Some(s);
            }
            k = k + 1;
        }
        None
    }

    /// Orders the operators: from the deepest nesting level to the outermost,
    /// and at each level first an `^`, then an `^`, `*` or `/`, then any
    /// operator, each the first that qualifies. What is not taken stays.
    pub fn sort(&mut self) -> (r: Vec<Symbol>)
        requires
            old(self).1 <= isize::MAX,
        ensures
            ({
                let (taken, left) = sorted_from(old(self).operators(), old(self).1 as int);
                &&& r@.map_values(|s: Symbol| s@) == taken
                &&& final(self).operators() == left
                &&& final(self).1 == old(self).1
            }),
    {
        let mut sotred_operators_matrix: Vec<Symbol> = Vec::new();
        let ghost top = self.1 as int;
        let mut level: isize = self.1 as isize;
        assert(sorted_from(self.operators(), top) == {
            let (rest, left) = sorted_from(self.operators(), level as int);
            (Seq::<SymbolView>::empty() + rest, left)
        });
        while level >= 0
            invariant
                -1 <= level <= top,
                top == old(self).1,
                self.1 == old(self).1,
                ({
                    let (taken, left) = sorted_from(old(self).operators(), top);
                    let (rest, remaining) = sorted_from(self.operators(), level as int);
                    &&& taken == sotred_operators_matrix@.map_values(|s: Symbol| s@) + rest
                    &&& left == remaining
                }),
            decreases level + 1,
        {
            let ghost before = self.operators();
            let ghost done = sotred_operators_matrix@.map_values(|s: Symbol| s@);
            let mut stage: u8 = 0;
            while stage < 3
                invariant
                    stage <= 3,
                    0 <= level,
                    self.1 == old(self).1,
                    ({
                        let (r1, o1) = pick(before, level as int, 0);
                        let (r2, o2) = pick(o1, level as int, 1);
                        let (r3, o3) = pick(o2, level as int, 2);
                        &&& stage == 0 ==> self.operators() == before && sotred_operators_matrix@.map_values(|s: Symbol| s@) == done
                        &&& stage == 1 ==> self.operators() == o1 && sotred_operators_matrix@.map_values(|s: Symbol| s@) == done + r1
                        &&& stage == 2 ==> self.operators() == o2 && sotred_operators_matrix@.map_values(|s: Symbol| s@) == done + r1 + r2
                        &&& stage == 3 ==> self.operators() == o3 && sotred_operators_matrix@.map_values(|s: Symbol| s@) == done + r1 + r2 + r3
                    }),
                decreases 3 - stage,
            {
                let ghost acc = sotred_operators_matrix@.map_values(|s: Symbol| s@);
                match Self::pick_one(&mut self.0, level, stage) {
                    Some(s) => {
                        sotred_operators_matrix.push(s);
                        assert(sotred_operators_matrix@.map_values(|s: Symbol| s@) =~= acc + seq![s@]);
                    },
                    None => {
                        assert(acc + Seq::<SymbolView>::empty() =~= acc);
                    },
                }
                stage = stage + 1;
            }
            proof {
                let (r1, o1) = pick(before, level as int, 0);
                let (r2, o2) = pick(o1, level as int, 1);
                let (r3, o3) = pick(o2, level as int, 2);
                let (rest, left) = sorted_from(o3, level - 1);
                assert(done + (r1 + r2 + r3 + rest) =~= done + r1 + r2 + r3 + rest);
            }
            level = level - 1;
        }
        proof {
            let (rest, left) = sorted_from(self.operators(), level as int);
            assert(rest.len() == 0);
            assert(sotred_operators_matrix@.map_values(|s: Symbol| s@) + rest =~= sotred_operators_matrix@.map_values(|s: Symbol| s@));
        }
        sotred_operators_matrix
    }
}


/// Symbols as reading a text makes them: digits are digits, decimal points
/// or minus signs, and every operator has an operation.
pub open spec fn well_formed(v: Seq<SymbolView>) -> bool {
    forall|i: int|
        0 <= i < v.len() ==> match #[trigger] v[i] {
            SymbolView::Digit { chr } => digit_like(chr) || chr == '-',
            SymbolView::Operator { operation, .. } => operation is Apply,
            _ => true,
        }
}

/// Looks for a pair of parentheses to test, scanning from `k` with the last
/// unchecked opening parenthesis at `opening` of depth `check`: the first
/// unchecked closing parenthesis of that depth ends the scan. The pair found
/// is `(opening, closing)`; a closing index of zero means none.
pub open spec fn pair_scan(v: Seq<SymbolView>, k: int, check: int, opening: int) -> (int, int)
    decreases v.len() - k,
{
    if k < 0 || k >= v.len() {
        (opening, 0)
    } else {
        match v[k] {
            SymbolView::OpeningParenthesis { for_negative, parenthesis_number, checked } => if !for_negative
                && !checked {
                pair_scan(v, k + 1, parenthesis_number, k)
            } else {
                pair_scan(v, k + 1, check, opening)
            },
            SymbolView::ClosingParenthesis { for_negative, parenthesis_number, checked } => if !for_negative
                && !checked && parenthesis_number == check {
                (opening, k)
            } else {
                pair_scan(v, k + 1, check, opening)
            },
            _ => pair_scan(v, k + 1, check, opening),
        }
    }
}

/// The pair of parentheses to test next.
pub open spec fn parenthesis_pair(v: Seq<SymbolView>) -> (int, int) {
    pair_scan(v, 0, 0, 0)
}

/// A parenthesis of a group, not of a negative number, not yet tested.
pub open spec fn untested(s: SymbolView) -> bool {
    match s {
        SymbolView::OpeningParenthesis { for_negative, checked, .. } => !for_negative && !checked,
        SymbolView::ClosingParenthesis { for_negative, checked, .. } => !for_negative && !checked,
        _ => false,
    }
}

/// The number of untested parentheses.
pub open spec fn untested_count(v: Seq<SymbolView>) -> nat
    decreases v.len(),
{
    if v.len() == 0 {
        0
    } else {
        untested_count(v.drop_last()) + if untested(v.last()) {
            1nat
        } else {
            0
        }
    }
}

/// A parenthesis marked as tested.
pub open spec fn tested(s: SymbolView) -> SymbolView {
    match s {
        SymbolView::OpeningParenthesis { for_negative, parenthesis_number, .. } =>
            SymbolView::OpeningParenthesis { for_negative, parenthesis_number, checked: true },
        SymbolView::ClosingParenthesis { for_negative, parenthesis_number, .. } =>
            SymbolView::ClosingParenthesis { for_negative, parenthesis_number, checked: true },
        _ => s,
    }
}

/// The symbols with the pair at `o` and `c` marked as tested.
pub open spec fn mark_tested(v: Seq<SymbolView>, o: int, c: int) -> Seq<SymbolView> {
    v.update(o, tested(v[o])).update(c, tested(v[c]))
}

/// The expression that the symbols read as, once written out and read again.
pub open spec fn reparsed(w: Seq<SymbolView>) -> Seq<SymbolView> {
    symbols_of(trim(symbols_text(w)))
}

/// Removing extra parentheses: the pair found is dropped when the expression
/// without it orders its operators alike, and marked as tested otherwise;
/// this repeats until no pair is left. The result, with the text of the
/// expression after each removal; `None` where the pair's opening index does
/// not hold an opening parenthesis when it is to be marked.
pub open spec fn stripped(v: Seq<SymbolView>) -> Option<(Seq<SymbolView>, Seq<Seq<char>>)>
    decreases v.len(), untested_count(v),
{
    if !well_formed(v) {
        None
    } else {
        let (o, c) = parenthesis_pair(v);
        if c == 0 {
            Some((v, Seq::empty()))
        } else {
            let m = reparsed(v.remove(c).remove(o));
            if same_symbols(sorted_operators(v), sorted_operators(m)) {
                proof {
                    lemma_pair(v);
                    lemma_removed_well_formed(v, c);
                    lemma_removed_well_formed(v.remove(c), o);
                    lemma_reparsed(v.remove(c).remove(o));
                }
                match stripped(m) {
                    Some((r, notes)) => Some((r, seq![symbols_text(m)] + notes)),
                    None => None,
                }
            } else if v[o] is OpeningParenthesis {
                proof {
                    lemma_pair(v);
                    lemma_mark_tested(v, o, c);
                }
                stripped(mark_tested(v, o, c))
            } else {
                None
            }
        }
    }
}

/// The pair found lies within the symbols, opening before closing, and the
/// closing parenthesis is untested.
pub proof fn lemma_pair(v: Seq<SymbolView>)
    ensures
        ({
            let (o, c) = parenthesis_pair(v);
            c != 0 ==> 0 <= o < c < v.len() && untested(v[c]) && v[c] is ClosingParenthesis
        }),
{
    lemma_pair_scan(v, 0, 0, 0);
}

proof fn lemma_pair_scan(v: Seq<SymbolView>, k: int, check: int, opening: int)
    requires
        0 <= k,
        0 <= opening,
        opening < k || opening == 0,
    ensures
        ({
            let (o, c) = pair_scan(v, k, check, opening);
            c != 0 ==> 0 <= o < c < v.len() && untested(v[c]) && v[c] is ClosingParenthesis
        }),
    decreases v.len() - k,
{
    if k < v.len() {
        match v[k] {
            SymbolView::OpeningParenthesis { for_negative, parenthesis_number, checked } => {
                if !for_negative && !checked {
                    lemma_pair_scan(v, k + 1, parenthesis_number, k);
                } else {
                    lemma_pair_scan(v, k + 1, check, opening);
                }
            },
            SymbolView::ClosingParenthesis { for_negative, parenthesis_number, checked } => {
                if !(!for_negative && !checked && parenthesis_number == check) {
                    lemma_pair_scan(v, k + 1, check, opening);
                }
            },
            _ => lemma_pair_scan(v, k + 1, check, opening),
        }
    }
}

proof fn lemma_untested_update(v: Seq<SymbolView>, i: int, x: SymbolView)
    requires
        0 <= i < v.len(),
    ensures
        untested_count(v.update(i, x)) + (if untested(v[i]) { 1int } else { 0 }) == untested_count(v)
            + (if untested(x) { 1int } else { 0 }),
    decreases v.len(),
{
    if i < v.len() - 1 {
        lemma_untested_update(v.drop_last(), i, x);
        assert(v.update(i, x).drop_last() == v.drop_last().update(i, x));
    } else {
        assert(v.update(i, x).drop_last() == v.drop_last());
    }
}

/// Marking a pair as tested keeps the symbols well formed and leaves fewer
/// untested parentheses.
pub proof fn lemma_mark_tested(v: Seq<SymbolView>, o: int, c: int)
    requires
        0 <= o < c < v.len(),
        untested(v[c]),
        v[c] is ClosingParenthesis,
        well_formed(v),
    ensures
        untested_count(mark_tested(v, o, c)) < untested_count(v),
        mark_tested(v, o, c).len() == v.len(),
        well_formed(mark_tested(v, o, c)),
{
    let w = v.update(o, tested(v[o]));
    lemma_untested_update(v, o, tested(v[o]));
    lemma_untested_update(w, c, tested(v[c]));
    assert(w[c] == v[c]);
    let m = mark_tested(v, o, c);
    assert forall|i: int| 0 <= i < m.len() implies match #[trigger] m[i] {
        SymbolView::Digit { chr } => digit_like(chr) || chr == '-',
        SymbolView::Operator { operation, .. } => operation is Apply,
        _ => true,
    } by {
        if i != o && i != c {
            assert(m[i] == v[i]);
        } else {
            assert(match v[i] {
                SymbolView::Digit { chr } => digit_like(chr) || chr == '-',
                SymbolView::Operator { operation, .. } => operation is Apply,
                _ => true,
            });
        }
    }
}

/// The single character that a well-formed symbol writes.
pub open spec fn symbol_char(s: SymbolView) -> char {
    symbol_text(s)[0]
}

pub(crate) proof fn lemma_symbols_text(w: Seq<SymbolView>)
    requires
        well_formed(w),
    ensures
        symbols_text(w).len() == w.len(),
        forall|i: int| 0 <= i < w.len() ==> symbols_text(w)[i] == symbol_char(#[trigger] w[i]),
        forall|i: int| 0 <= i < w.len() ==> symbol_text(#[trigger] w[i]).len() == 1,
    decreases w.len(),
{
    if w.len() > 0 {
        let u = w.drop_last();
        assert(well_formed(u)) by {
            assert forall|i: int| 0 <= i < u.len() implies match #[trigger] u[i] {
                SymbolView::Digit { chr } => digit_like(chr) || chr == '-',
                SymbolView::Operator { operation, .. } => operation is Apply,
                _ => true,
            } by {
                assert(u[i] == w[i]);
            }
        }
        lemma_symbols_text(u);
        assert(match w[w.len() - 1] {
            SymbolView::Digit { chr } => digit_like(chr) || chr == '-',
            SymbolView::Operator { operation, .. } => operation is Apply,
            _ => true,
        });
        assert forall|i: int| 0 <= i < w.len() implies symbol_text(#[trigger] w[i]).len() == 1 by {
            if i < w.len() - 1 {
                assert(w[i] == u[i]);
            }
        }
        assert forall|i: int| 0 <= i < w.len() implies symbols_text(w)[i] == symbol_char(#[trigger] w[i]) by {
            if i < w.len() - 1 {
                assert(w[i] == u[i]);
            }
        }
    }
}

/// Removing one symbol keeps well-formed symbols well formed.
pub proof fn lemma_removed_well_formed(v: Seq<SymbolView>, i: int)
    requires
        well_formed(v),
        0 <= i < v.len(),
    ensures
        well_formed(v.remove(i)),
{
    let r = v.remove(i);
    assert forall|j: int| 0 <= j < r.len() implies match #[trigger] r[j] {
        SymbolView::Digit { chr } => digit_like(chr) || chr == '-',
        SymbolView::Operator { operation, .. } => operation is Apply,
        _ => true,
    } by {
        if j < i {
            assert(r[j] == v[j]);
        } else {
            assert(r[j] == v[j + 1]);
        }
    }
}

pub(crate) proof fn lemma_parse_prefix(t: Seq<char>, k: int)
    requires
        all_valid(t),
        0 <= k <= t.len(),
    ensures
        parse_prefix(t, k).symbols.len() == k,
        well_formed(parse_prefix(t, k).symbols),
    decreases k,
{
    if k > 0 {
        lemma_parse_prefix(t, k - 1);
        let before = parse_prefix(t, k - 1).symbols;
        let after = parse_prefix(t, k).symbols;
        assert(valid_char(t[k - 1]));
        assert forall|j: int| 0 <= j < after.len() implies match #[trigger] after[j] {
            SymbolView::Digit { chr } => digit_like(chr) || chr == '-',
            SymbolView::Operator { operation, .. } => operation is Apply,
            _ => true,
        } by {
            if j < k - 1 {
                assert(after[j] == before[j]);
            }
        }
    }
}

proof fn lemma_trim_plain(t: Seq<char>)
    requires
        forall|i: int| 0 <= i < t.len() ==> !is_white_space(#[trigger] t[i]),
    ensures
        trim(t) == t,
{
    assert(crate::text::trim_start(t) == t);
    assert(crate::text::trim_end(t) == t);
}

/// Writing out well-formed symbols and reading them again gives as many
/// well-formed symbols.
pub proof fn lemma_reparsed(w: Seq<SymbolView>)
    requires
        well_formed(w),
    ensures
        reparsed(w).len() == w.len(),
        well_formed(reparsed(w)),
        all_valid(symbols_text(w)),
        trim(symbols_text(w)) == symbols_text(w),
{
    lemma_symbols_text(w);
    let t = symbols_text(w);
    assert forall|i: int| 0 <= i < t.len() implies valid_char(#[trigger] t[i]) && !is_white_space(t[i]) by {
        assert(t[i] == symbol_char(w[i]));
        assert(match w[i] {
            SymbolView::Digit { chr } => digit_like(chr) || chr == '-',
            SymbolView::Operator { operation, .. } => operation is Apply,
            _ => true,
        });
    }
    lemma_trim_plain(t);
    lemma_parse_prefix(t, t.len() as int);
}


/// The notes gathered so far, followed by those still to come.
pub open spec fn after_notes(
    notes: Seq<Seq<char>>,
    rest: Option<(Seq<SymbolView>, Seq<Seq<char>>)>,
) -> Option<(Seq<SymbolView>, Seq<Seq<char>>)> {
    match rest {
        Some((r, more)) => Some((r, notes + more)),
        None => None,
    }
}

proof fn lemma_after_notes(
    a: Seq<Seq<char>>,
    b: Seq<Seq<char>>,
    x: Option<(Seq<SymbolView>, Seq<Seq<char>>)>,
)
    ensures
        after_notes(a, after_notes(b, x)) == after_notes(a + b, x),
{
    match x {
        Some((r, more)) => {
            assert(a + (b + more) =~= (a + b) + more);
        },
        None => {},
    }
}

/// Whether two sequences of symbols are alike symbol by symbol.
fn same_symbol_vec(a: &Vec<Symbol>, b: &Vec<Symbol>) -> (r: bool)
    ensures
        r == same_symbols(a@.map_values(|s: Symbol| s@), b@.map_values(|s: Symbol| s@)),
{
    let ghost av = a@.map_values(|s: Symbol| s@);
    let ghost bv = b@.map_values(|s: Symbol| s@);
    if a.len() != b.len() {
        return false;
    }
    let mut i: usize = 0;
    while i < a.len()
        invariant
            a@.len() == b@.len(),
            i <= a@.len(),
            av == a@.map_values(|s: Symbol| s@),
            bv == b@.map_values(|s: Symbol| s@),
            forall|j: int| 0 <= j < i ==> #[trigger] same_symbol(av[j], bv[j]),
        decreases a.len() - i,
    {
        if !a[i].eq(&b[i]) {
            assert(!same_symbol(av[i as int], bv[i as int]));
            return false;
        }
        i = i + 1;
    }
    true
}

impl VecSymbols {
    /// Finds the pair of parentheses to test next, as [`parenthesis_pair`].
    fn find_pair(&self) -> (r: (usize, usize))
        ensures
            r.0 as int == parenthesis_pair(self@).0,
            r.1 as int == parenthesis_pair(self@).1,
    {
        let mut check_parenthesis_number: isize = 0;
        let mut opening_parenthesis_index: usize = 0;
        let mut index: usize = 0;
        while index < self.0.len()
            invariant
                index <= self@.len() == self.0@.len(),
                parenthesis_pair(self@) == pair_scan(
                    self@,
                    index as int,
                    check_parenthesis_number as int,
                    opening_parenthesis_index as int,
                ),
            decreases self.0.len() - index,
        {
            match &self.0[index] {
                Symbol::OpeningParenthesis { for_negative, parenthesis_number, checked } => {
                    if !*for_negative && !*checked {
                        check_parenthesis_number = *parenthesis_number;
                        opening_parenthesis_index = index;
                    }
                },
                Symbol::ClosingParenthesis { for_negative, parenthesis_number, checked } => {
                    if !*for_negative && !*checked && *parenthesis_number == check_parenthesis_number {
                        return (opening_parenthesis_index, index);
                    }
                },
                _ => {},
            }
            index = index + 1;
        }
        (opening_parenthesis_index, 0)
    }

    /// Marks the parenthesis at `k` as tested, an opening one when `opening`
    /// and a closing one otherwise; `false` when no such parenthesis is there.
    fn mark(&mut self, k: usize, opening: bool) -> (r: bool)
        requires
            k < old(self)@.len(),
        ensures
            r == (if opening {
                old(self)@[k as int] is OpeningParenthesis
            } else {
                old(self)@[k as int] is ClosingParenthesis
            }),
            r ==> final(self)@ == old(self)@.update(k as int, tested(old(self)@[k as int])),
            !r ==> final(self)@ == old(self)@,
    {
        let fits = match &self.0[k] {
            Symbol::OpeningParenthesis { .. } => opening,
            Symbol::ClosingParenthesis { .. } => !opening,
            _ => false,
        };
        if !fits {
            return false;
        }
        let replacement = match &self.0[k] {
            Symbol::OpeningParenthesis { for_negative, parenthesis_number, .. } =>
                Symbol::OpeningParenthesis {
                for_negative: *for_negative,
                parenthesis_number: *parenthesis_number,
                checked: true,
            },
            Symbol::ClosingParenthesis { for_negative, parenthesis_number, .. } =>
                Symbol::ClosingParenthesis {
                for_negative: *for_negative,
                parenthesis_number: *parenthesis_number,
                checked: true,
            },
            Symbol::Digit { chr } => Symbol::Digit { chr: *chr },
            Symbol::Operator { .. } => Symbol::Digit { chr: '0' },
        };
        self.0.set(k, replacement);
        assert(self@ =~= old(self)@.update(k as int, tested(old(self)@[k as int])));
        true
    }

    /// Removes parentheses that make no difference: a pair is dropped when the
    /// expression without it orders its operators alike, and is marked as
    /// tested otherwise, until no pair is left to test. Gives the text of the
    /// expression after each removal; `None` where a pair's opening index does
    /// not hold an opening parenthesis when it is to be marked.
    pub fn check_extra_parentheses(&mut self) -> (r: Option<Vec<String>>)
        requires
            well_formed(old(self)@),
            old(self)@.len() < isize::MAX,
        ensures
            match r {
                Some(notes) => stripped(old(self)@) == Some(
                    (final(self)@, notes@.map_values(|s: String| s@)),
                ),
                None => stripped(old(self)@) is None,
            },
    {
        let mut notes: Vec<String> = Vec::new();
        loop
            invariant
                well_formed(self@),
                self@.len() < isize::MAX,
                stripped(old(self)@) == after_notes(notes@.map_values(|s: String| s@), stripped(self@)),
            decreases self@.len(), untested_count(self@),
        {
            let ghost v = self@;
            let ghost gathered = notes@.map_values(|s: String| s@);
            let (opening_parenthesis_index, closing_parenthesis_index) = self.find_pair();
            if closing_parenthesis_index == 0 {
                assert(gathered + Seq::<Seq<char>>::empty() =~= gathered);
                return Some(notes);
            }
            proof {
                lemma_pair(v);
                lemma_removed_well_formed(v, closing_parenthesis_index as int);
                lemma_removed_well_formed(v.remove(closing_parenthesis_index as int), opening_parenthesis_index as int);
            }
            let mut modify_expression = self.duplicate();
            modify_expression.0.remove(closing_parenthesis_index);
            modify_expression.0.remove(opening_parenthesis_index);
            let ghost w = v.remove(closing_parenthesis_index as int).remove(opening_parenthesis_index as int);
            assert(modify_expression@ =~= w);
            proof {
                lemma_reparsed(w);
                lemma_symbols_text(w);
            }
            let text = modify_expression.to_string();
            let modified = match VecSymbols::string_to_symbol(text) {
                Ok(m) => m,
                Err(_) => {
                    assert(false);
                    return None;
                },
            };
            assert(modified@ == reparsed(w));
            let mut before_operators = VecOperators::get_operators_matrix(self);
            let before_sorted = before_operators.sort();
            let mut after_operators = VecOperators::get_operators_matrix(&modified);
            let after_sorted = after_operators.sort();
            assert(before_sorted@.map_values(|s: Symbol| s@) == sorted_operators(v));
            assert(after_sorted@.map_values(|s: Symbol| s@) == sorted_operators(modified@));
            if same_symbol_vec(&before_sorted, &after_sorted) {
                assert(stripped(v) == after_notes(seq![symbols_text(modified@)], stripped(modified@)));
                *self = modified;
                let note = self.to_string();
                notes.push(note);
                assert(notes@.map_values(|s: String| s@) =~= gathered.push(symbols_text(self@)));
                proof {
                    lemma_after_notes(gathered, seq![symbols_text(self@)], stripped(self@));
                    assert(gathered + seq![symbols_text(self@)] =~= gathered.push(symbols_text(self@)));
                }
                assert(stripped(old(self)@) == after_notes(notes@.map_values(|s: String| s@), stripped(self@)));
            } else {
                assert(v[opening_parenthesis_index as int] is OpeningParenthesis ==> stripped(v) == stripped(mark_tested(v, opening_parenthesis_index as int, closing_parenthesis_index as int)));
                if !self.mark(opening_parenthesis_index, true) {
                    return None;
                }
                self.mark(closing_parenthesis_index, false);
                assert(self@ == mark_tested(v, opening_parenthesis_index as int, closing_parenthesis_index as int));
                proof {
                    lemma_mark_tested(v, opening_parenthesis_index as int, closing_parenthesis_index as int);
                }
                assert(stripped(old(self)@) == after_notes(notes@.map_values(|s: String| s@), stripped(self@)));
            }
        }
    }
}


/// Each operator read from a text knows its own index.
proof fn lemma_parse_indices(t: Seq<char>, k: int)
    requires
        0 <= k <= t.len(),
        t.len() <= usize::MAX,
        all_valid(t),
    ensures
        forall|i: int|
            0 <= i < parse_prefix(t, k).symbols.len() ==> match #[trigger] parse_prefix(t, k).symbols[i] {
                SymbolView::Operator { operation: OperationView::Apply { index, .. }, .. } => index as int
                    == i,
                _ => true,
            },
        parse_prefix(t, k).symbols.len() <= k,
    decreases k,
{
    lemma_parse_prefix(t, k);
    if k > 0 {
        lemma_parse_indices(t, k - 1);
        lemma_parse_prefix(t, k - 1);
        let before = parse_prefix(t, k - 1).symbols;
        let after = parse_prefix(t, k).symbols;
        assert forall|i: int| 0 <= i < after.len() implies match #[trigger] after[i] {
            SymbolView::Operator { operation: OperationView::Apply { index, .. }, .. } => index as int == i,
            _ => true,
        } by {
            if i < before.len() {
                assert(after[i] == before[i]);
            }
        }
    }
}

/// The symbols read from a text that may stand as an expression: well
/// formed, one per character, and each operator knowing its index.
pub(crate) proof fn lemma_symbols_of(t: Seq<char>)
    requires
        all_valid(t),
        t.len() <= usize::MAX,
    ensures
        symbols_of(t).len() == t.len(),
        well_formed(symbols_of(t)),
        indices_in_range(symbols_of(t)),
{
    lemma_parse_prefix(t, t.len() as int);
    lemma_parse_indices(t, t.len() as int);
    let v = symbols_of(t);
    assert forall|i: int| 0 <= i < v.len() implies match #[trigger] v[i] {
        SymbolView::Operator { operation: OperationView::Apply { index, .. }, .. } => index <= v.len()
            && index < usize::MAX,
        _ => true,
    } by {
        assert(match v[i] {
            SymbolView::Operator { operation: OperationView::Apply { index, .. }, .. } => index as int == i,
            _ => true,
        });
    }
}

} // verus!
