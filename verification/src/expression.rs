//! An expression being worked out, one operation at a time.
use vstd::prelude::*;
use crate::text::{trim, chars_of};
use crate::operation::{Operation, OperationView};
use crate::symbols::{
    SymbolView, VecSymbols, Symbol, all_valid, first_invalid, unknown_symbol, symbols_of, expression_check,
    stripped, current_operation, is_number, symbols_text, lemma_symbols_of,
};

verus! {

/// An expression: its symbols and the operation to work out next.
pub struct Expression {
    expression: VecSymbols,
    current_operation: Operation,
}

/// The model of an [`Expression`].
pub struct ExpressionView {
    pub symbols: Seq<SymbolView>,
    pub current: OperationView,
}

impl View for Expression {
    type V = ExpressionView;

    closed spec fn view(&self) -> ExpressionView {
        ExpressionView { symbols: self.expression@, current: self.current_operation@ }
    }
}

/// The index of the first character of `t` that may not stand in an expression.
pub open spec fn first_invalid_index(t: Seq<char>) -> int {
    choose|i: int| first_invalid(t, i)
}

/// What reading a text as an expression gives: the expression and the text
/// after each removal of extra parentheses, or the error message; `None`
/// where removing parentheses meets a pair whose opening index holds no
/// opening parenthesis.
pub open spec fn built(text: Seq<char>) -> Option<Result<(ExpressionView, Seq<Seq<char>>), Seq<char>>> {
    let t = trim(text);
    if !all_valid(t) {
        Some(Err(unknown_symbol(t[first_invalid_index(t)], first_invalid_index(t))))
    } else {
        let v = symbols_of(t);
        match expression_check(v) {
            Err(e) => Some(Err(e)),
            Ok(_) => match stripped(v) {
                None => None,
                Some((w, notes)) => Some(
                    Ok((ExpressionView { symbols: w, current: current_operation(w) }, notes)),
                ),
            },
        }
    }
}

/// The symbols after the result `result` replaces `start..stop`.
pub open spec fn spliced(symbols: Seq<SymbolView>, result: Seq<char>, start: int, stop: int) -> Seq<SymbolView> {
    symbols.subrange(0, start) + symbols_of(trim(result)) + symbols.subrange(stop, symbols.len() as int)
}

/// A digit `-`: the expression holds a negative number.
pub open spec fn has_negative(v: Seq<SymbolView>) -> bool {
    exists|i: int| 0 <= i < v.len() && v[i] == (SymbolView::Digit { chr: '-' })
}

/// What a step of working out gives: the answer, or the expression to go on
/// with.
pub enum Step {
    Finished(String),
    Continue(String),
}

/// The model of a [`Step`].
pub enum StepView {
    Finished(Seq<char>),
    Continue(Seq<char>),
}

impl View for Step {
    type V = StepView;

    open spec fn view(&self) -> StepView {
        match self {
            Step::Finished(s) => StepView::Finished(s@),
            Step::Continue(s) => StepView::Continue(s@),
        }
    }
}

/// Whether the result `result` may replace `start..stop` of the expression:
/// it reads as symbols, the range lies within the expression, and a negative
/// answer has the parentheses around it to drop.
pub open spec fn accepts(e: ExpressionView, result: Seq<char>, start: int, stop: int) -> bool {
    &&& result.len() < isize::MAX
    &&& all_valid(trim(result))
    &&& 0 <= start <= stop <= e.symbols.len()
    &&& ({
        let v = spliced(e.symbols, result, start, stop);
        is_number(v) && has_negative(v) ==> v.len() >= 2
    })
}

/// The expression after the result `result` replaces `start..stop`, and what
/// the step gives: when only a number is left, the answer (without the
/// parentheses of a negative answer); otherwise the expression's text, with
/// the next operation chosen.
pub open spec fn advanced(e: ExpressionView, result: Seq<char>, start: int, stop: int) -> (ExpressionView, StepView) {
    let v = spliced(e.symbols, result, start, stop);
    if is_number(v) {
        let w = if has_negative(v) {
            v.drop_last().drop_first()
        } else {
            v
        };
        (ExpressionView { symbols: w, current: e.current }, StepView::Finished(symbols_text(w)))
    } else {
        (ExpressionView { symbols: v, current: current_operation(v) }, StepView::Continue(symbols_text(v)))
    }
}

impl Expression {
    /// Reads an expression: its symbols, checked, with extra parentheses
    /// removed, and the first operation to work out. Gives the text after each
    /// removal of parentheses, or the error message.
    pub fn new(expression: String) -> (r: Result<(Expression, Vec<String>), String>)
        requires
            expression@.len() < isize::MAX,
            built(expression@) is Some,
        ensures
            match r {
                Ok((e, notes)) => built(expression@) == Some(
                    Ok::<(ExpressionView, Seq<Seq<char>>), Seq<char>>((e@, notes@.map_values(|s: String| s@))),
                ),
                Err(m) => built(expression@) == Some(Err::<(ExpressionView, Seq<Seq<char>>), Seq<char>>(m@)),
            },
    {
        let ghost t = trim(expression@);
        proof {
            crate::text::lemma_trim_len(expression@);
        }
        let mut vector_symbols = match VecSymbols::string_to_symbol(expression) {
            Ok(v) => v,
            Err(m) => {
                proof {
                    let i = choose|i: int| first_invalid(t, i) && m@ == unknown_symbol(t[i], i);
                    lemma_first_invalid_unique(t, i, first_invalid_index(t));
                }
                return Err(m);
            },
        };
        proof {
            lemma_symbols_of(t);
        }
        match vector_symbols.check_expression() {
            Ok(()) => {},
            Err(m) => {
                return Err(m);
            },
        }
        let notes = match vector_symbols.check_extra_parentheses() {
            Some(notes) => notes,
            None => {
                return Err(String::new());
            },
        };
        let current_operation = vector_symbols.get_current_operation();
        Ok((Expression { expression: vector_symbols, current_operation }, notes))
    }

    /// Whether reading `expression` runs without meeting a pair of
    /// parentheses whose opening index holds no opening parenthesis.
    pub fn settles(expression: &String) -> (r: bool)
        requires
            expression@.len() < isize::MAX,
        ensures
            r == built(expression@) is Some,
    {
        let ghost t = trim(expression@);
        proof {
            crate::text::lemma_trim_len(expression@);
        }
        let mut vector_symbols = match VecSymbols::string_to_symbol(expression.clone()) {
            Ok(v) => v,
            Err(_) => {
                return true;
            },
        };
        proof {
            lemma_symbols_of(t);
        }
        if vector_symbols.check_expression().is_err() {
            return true;
        }
        vector_symbols.check_extra_parentheses().is_some()
    }

    /// The operation to work out next.
    pub fn current_operation(&self) -> (r: &Operation)
        ensures
            r@ == self@.current,
    {
        &self.current_operation
    }

    /// The text of the expression.
    pub fn to_string(&self) -> (r: String)
        ensures
            r@ == symbols_text(self@.symbols),
    {
        self.expression.to_string()
    }

    /// Whether the expression holds a negative number.
    pub fn is_negative_result(&self) -> (r: bool)
        ensures
            r == has_negative(self@.symbols),
    {
        let v = &self.expression.0;
        let mut i: usize = 0;
        while i < v.len()
            invariant
                i <= v@.len(),
                v@.map_values(|s: Symbol| s@) == self@.symbols,
                forall|j: int| 0 <= j < i ==> self@.symbols[j] != (SymbolView::Digit { chr: '-' }),
            decreases v.len() - i,
        {
            match &v[i] {
                Symbol::Digit { chr } => {
                    if *chr == '-' {
                        assert(self@.symbols[i as int] == SymbolView::Digit { chr: '-' });
                        return true;
                    }
                },
                _ => {},
            }
            i = i + 1;
        }
        false
    }
}

/// The first character of a text that may not stand in an expression is
/// unique.
proof fn lemma_first_invalid_unique(t: Seq<char>, i: int, j: int)
    requires
        first_invalid(t, i),
    ensures
        first_invalid(t, first_invalid_index(t)),
        first_invalid_index(t) == i,
{
    let k = first_invalid_index(t);
    assert(first_invalid(t, k));
    if k < i {
        assert(crate::symbols::valid_char(t[k]));
    } else if i < k {
        assert(crate::symbols::valid_char(t[i]));
    }
}


/// Copies `items[from..to]` onto the end of `out`.
fn copy_symbols(out: &mut Vec<Symbol>, items: &Vec<Symbol>, from: usize, to: usize)
    requires
        from <= to <= items@.len(),
    ensures
        final(out)@.map_values(|s: Symbol| s@) == old(out)@.map_values(|s: Symbol| s@) + items@.map_values(
            |s: Symbol| s@,
        ).subrange(from as int, to as int),
{
    let ghost start = out@.map_values(|s: Symbol| s@);
    let mut i = from;
    while i < to
        invariant
            from <= i <= to <= items@.len(),
            out@.map_values(|s: Symbol| s@) == start + items@.map_values(|s: Symbol| s@).subrange(
                from as int,
                i as int,
            ),
        decreases to - i,
    {
        let ghost before = out@.map_values(|s: Symbol| s@);
        let d = items[i].duplicate();
        out.push(d);
        assert(out@.map_values(|s: Symbol| s@) =~= before.push(items@.map_values(|s: Symbol| s@)[i as int]));
        assert(out@.map_values(|s: Symbol| s@) =~= start + items@.map_values(|s: Symbol| s@).subrange(
            from as int,
            i + 1,
        ));
        i = i + 1;
    }
}

/// The symbols after `middle` replaces `start..stop` of `items`.
fn splice_symbols(items: &Vec<Symbol>, start: usize, stop: usize, middle: &Vec<Symbol>) -> (r: Vec<Symbol>)
    requires
        start <= stop <= items@.len(),
    ensures
        r@.map_values(|s: Symbol| s@) == items@.map_values(|s: Symbol| s@).subrange(0, start as int)
            + middle@.map_values(|s: Symbol| s@) + items@.map_values(|s: Symbol| s@).subrange(
            stop as int,
            items@.len() as int,
        ),
{
    let mut out: Vec<Symbol> = Vec::new();
    copy_symbols(&mut out, items, 0, start);
    copy_symbols(&mut out, middle, 0, middle.len());
    copy_symbols(&mut out, items, stop, items.len());
    assert(middle@.map_values(|s: Symbol| s@).subrange(0, middle@.len() as int) =~= middle@.map_values(
        |s: Symbol| s@,
    ));
    assert(Seq::<SymbolView>::empty() + items@.map_values(|s: Symbol| s@).subrange(0, start as int)
        =~= items@.map_values(|s: Symbol| s@).subrange(0, start as int));
    out
}

impl Expression {
    /// Whether the result `result` may replace `range_start..range_stop`: it
    /// reads as symbols, the range lies within the expression, and a negative
    /// answer has its parentheses to drop.
    pub fn accepts(&self, result: &String, range_start: usize, range_stop: usize) -> (r: bool)
        ensures
            r == accepts(self@, result@, range_start as int, range_stop as int),
    {
        let count = chars_of(result).len();
        if count >= isize::MAX as usize {
            return false;
        }
        let parsed = match VecSymbols::string_to_symbol(result.clone()) {
            Ok(p) => p,
            Err(_) => {
                return false;
            },
        };
        if !(range_start <= range_stop && range_stop <= self.expression.0.len()) {
            return false;
        }
        let v = VecSymbols(splice_symbols(&self.expression.0, range_start, range_stop, &parsed.0));
        assert(v@ == spliced(self@.symbols, result@, range_start as int, range_stop as int));
        if v.is_number() {
            let probe = Expression { expression: v, current_operation: Operation::Zero };
            if probe.is_negative_result() {
                return probe.expression.0.len() >= 2;
            }
        }
        true
    }

    /// Puts the result `result` in place of `range_start..range_stop`. When
    /// only a number is left the step gives the answer, without the
    /// parentheses of a negative answer; otherwise it gives the expression's
    /// text and chooses the next operation.
    pub fn advance(&mut self, result: String, range_start: usize, range_stop: usize) -> (r: Step)
        requires
            accepts(old(self)@, result@, range_start as int, range_stop as int),
        ensures
            (final(self)@, r@) == advanced(old(self)@, result@, range_start as int, range_stop as int),
    {
        let parsed = match VecSymbols::string_to_symbol(result) {
            Ok(p) => p,
            Err(_) => {
                assert(false);
                return Step::Finished(String::new());
            },
        };
        let spliced_symbols = splice_symbols(&self.expression.0, range_start, range_stop, &parsed.0);
        self.expression = VecSymbols(spliced_symbols);
        if self.expression.is_number() {
            if self.is_negative_result() {
                let last = self.expression.0.len() - 1;
                self.expression.0.remove(last);
                self.expression.0.remove(0);
                assert(self.expression@ =~= spliced(old(self)@.symbols, result@, range_start as int, range_stop as int).drop_last().drop_first());
            }
            Step::Finished(self.expression.to_string())
        } else {
            let text = self.expression.to_string();
            self.current_operation = self.expression.get_current_operation();
            Step::Continue(text)
        }
    }
}

} // verus!
