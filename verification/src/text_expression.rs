//! The expression read straight from its text: checks, the choice of the
//! operation to work out first, its operands, and the removal of parentheses
//! that make no difference. Indices are those of characters.
use vstd::prelude::*;
use crate::text::{ascii_text, is_digit, decimal, chars_of, string_of, push_char, index_text};
use crate::my_extension::{negative_opening, MyStringExtension};
use crate::operation::{Argument, ArgumentView, Operation, OperationView, byte_len, same_operation};
use crate::symbols::{operator_char, kind_of};

verus! {

/// A character that may stand in an expression: a digit, an operator or a
/// parenthesis.
pub open spec fn expression_char(c: char) -> bool {
    is_digit(c) || operator_char(c) || c == '(' || c == ')'
}

/// The message for a character that may not stand next to an operator.
pub open spec fn incorrect(c: char, i: int) -> Seq<char> {
    "Incorrect expression. "@ + seq![c] + ", index:"@ + decimal(i as nat)
}

/// The message for a character that may not stand in an expression.
pub open spec fn unknown_operator(c: char, i: int) -> Seq<char> {
    "unknown operator:"@ + seq![c] + ", index:"@ + decimal(i as nat)
}

/// Scanning from `k` on, with `flag` telling whether a negative number has
/// been opened: whether no operator stands in the text but the minus signs
/// of negative numbers.
pub open spec fn answer_scan(t: Seq<char>, k: int, flag: bool) -> bool
    decreases t.len() - k,
{
    if k < 0 || k >= t.len() {
        true
    } else {
        let c = t[k];
        if c == '+' || c == '*' || c == '/' || c == '^' {
            false
        } else if c == '-' {
            if !flag {
                false
            } else {
                answer_scan(t, k + 1, flag)
            }
        } else if c == '(' {
            answer_scan(t, k + 1, if negative_opening(t, k) { true } else { flag })
        } else if c == ')' {
            answer_scan(t, k + 1, false)
        } else {
            answer_scan(t, k + 1, flag)
        }
    }
}

/// The text is just a number: no operator but the minus signs of negative
/// numbers.
pub open spec fn text_is_answer(t: Seq<char>) -> bool {
    answer_scan(t, 0, false)
}

/// Scanning rightwards from `k`, with `flag` telling whether a `(` has been
/// passed: whether a right operand begins there.
pub open spec fn right_scan(t: Seq<char>, k: int, flag: bool) -> Result<(), Seq<char>>
    decreases t.len() - k,
{
    if k < 0 || k >= t.len() {
        Ok(())
    } else {
        let c = t[k];
        if is_digit(c) {
            Ok(())
        } else if c == '(' {
            right_scan(t, k + 1, true)
        } else if c == '-' && flag {
            Ok(())
        } else {
            Err(incorrect(c, k))
        }
    }
}

/// Whether the operator at `io` has a right operand.
pub open spec fn text_right_check(t: Seq<char>, io: int) -> Result<(), Seq<char>> {
    right_scan(t, io + 1, false)
}

/// Scanning leftwards from `j`, for the operator at `io` of a text of `len`
/// bytes, with `minus` telling whether that operator is a `-`: whether a left
/// operand ends there. A message counts the index as `len - 2 * io + j`;
/// `None` where that count falls below zero at a character that is looked at.
pub open spec fn left_scan(t: Seq<char>, j: int, minus: bool, len: int, io: int) -> Option<
    Result<(), Seq<char>>,
>
    decreases j + 1,
{
    if j < 0 || j >= t.len() {
        Some(Ok(()))
    } else if len - 2 * io + j < 0 {
        None
    } else {
        let c = t[j];
        if is_digit(c) {
            Some(Ok(()))
        } else if c == ')' {
            left_scan(t, j - 1, minus, len, io)
        } else if c == '(' && minus {
            Some(Ok(()))
        } else {
            Some(Err(incorrect(c, len - 2 * io + j)))
        }
    }
}

/// Whether the operator at `io` has a left operand; `None` where the index of
/// the message would fall below zero.
pub open spec fn text_left_check(t: Seq<char>, io: int, len: int) -> Option<Result<(), Seq<char>>> {
    left_scan(t, io - 1, t[io] == '-', len, io)
}

/// Both checks of the operator at `io`; both messages, joined by a comma, when
/// both fail.
pub open spec fn text_operation_check(t: Seq<char>, io: int, len: int) -> Option<Result<(), Seq<char>>> {
    match text_left_check(t, io, len) {
        None => None,
        Some(left) => Some(
            match (left, text_right_check(t, io)) {
                (Ok(_), Ok(_)) => Ok(()),
                (Ok(_), Err(e)) => Err(e),
                (Err(e), Ok(_)) => Err(e),
                (Err(e1), Err(e2)) => Err(e1 + ", "@ + e2),
            },
        ),
    }
}

/// Checks the text from `k` on with `count` parentheses open.
pub open spec fn check_scan(t: Seq<char>, k: int, count: int, len: int) -> Option<Result<(), Seq<char>>>
    decreases t.len() - k,
{
    if k < 0 || k >= t.len() {
        Some(if count > 0 { Err("Extra '('"@) } else { Ok(()) })
    } else {
        let c = t[k];
        if c == '(' {
            check_scan(t, k + 1, count + 1, len)
        } else if c == ')' {
            if count != 0 {
                check_scan(t, k + 1, count - 1, len)
            } else {
                Some(Err("Extra ')'"@))
            }
        } else if operator_char(c) {
            match text_operation_check(t, k, len) {
                None => None,
                Some(Err(e)) => Some(Err(e)),
                Some(Ok(_)) => check_scan(t, k + 1, count, len),
            }
        } else if is_digit(c) {
            check_scan(t, k + 1, count, len)
        } else {
            Some(Err(unknown_operator(c, k)))
        }
    }
}

/// Whether the text is an expression that can be worked out, for a text of
/// `len` bytes; `None` where a message index would fall below zero.
pub open spec fn text_check(t: Seq<char>, len: int) -> Option<Result<(), Seq<char>>> {
    if t.len() == 0 {
        Some(Err("nothing entered"@))
    } else if text_is_answer(t) {
        Some(Err("input is just number"@))
    } else {
        check_scan(t, 0, 0, len)
    }
}


/// What a scan for an operand has gathered: its characters in the order met,
/// whether a negative number's parenthesis is open, and the operand's flags.
pub struct ArgScan {
    pub value: Seq<char>,
    pub flag: bool,
    pub negative: bool,
    pub next_to: bool,
}

/// Scanning leftwards from `j` for the left operand.
pub open spec fn left_collect(t: Seq<char>, j: int, st: ArgScan) -> ArgScan
    decreases j + 1,
{
    if j < 0 || j >= t.len() {
        st
    } else {
        let c = t[j];
        if is_digit(c) || c == '.' {
            left_collect(t, j - 1, ArgScan { value: st.value.push(c), ..st })
        } else if c == ')' {
            left_collect(t, j - 1, ArgScan { flag: true, ..st })
        } else if c == '-' {
            if st.flag {
                left_collect(t, j - 1, ArgScan { value: st.value.push(c), ..st })
            } else {
                st
            }
        } else if c == '(' {
            if st.flag {
                left_collect(t, j - 1, ArgScan { flag: false, negative: true, ..st })
            } else {
                left_collect(t, j - 1, ArgScan { next_to: true, ..st })
            }
        } else {
            st
        }
    }
}

/// Scanning rightwards from `k` for the right operand.
pub open spec fn right_collect(t: Seq<char>, k: int, st: ArgScan) -> ArgScan
    decreases t.len() - k,
{
    if k < 0 || k >= t.len() {
        st
    } else {
        let c = t[k];
        if is_digit(c) || c == '.' {
            right_collect(t, k + 1, ArgScan { value: st.value.push(c), ..st })
        } else if c == '(' {
            right_collect(t, k + 1, ArgScan { flag: true, ..st })
        } else if c == '-' {
            if st.flag {
                right_collect(t, k + 1, ArgScan { value: st.value.push(c), ..st })
            } else {
                st
            }
        } else if c == ')' {
            if st.flag {
                right_collect(t, k + 1, ArgScan { flag: false, negative: true, ..st })
            } else {
                ArgScan { next_to: true, ..st }
            }
        } else {
            st
        }
    }
}

/// The operands of the operator at `index`: the left one read leftwards and
/// turned around, the right one read rightwards, with the open parenthesis of
/// a negative number carried from the first scan to the second.
pub open spec fn text_args(t: Seq<char>, index: int) -> (ArgumentView, ArgumentView) {
    let first = left_collect(t, index - 1, ArgScan { value: Seq::empty(), flag: false, negative: false, next_to: false });
    let second = right_collect(t, index + 1, ArgScan { value: Seq::empty(), flag: first.flag, negative: false, next_to: false });
    (
        ArgumentView { arg: first.value.reverse(), next_to_parenthesis: first.next_to, negative: first.negative },
        ArgumentView { arg: second.value, next_to_parenthesis: second.next_to, negative: second.negative },
    )
}


/// Where the choice of the first operation stands: the depth of parentheses,
/// the deepest depth of a chosen operator so far, the operators counted in
/// nested parentheses, the priority, index and character of the choice, and
/// whether a negative number's parenthesis is open.
pub struct CurrentScan {
    pub depth: int,
    pub max_depth: int,
    pub inner: int,
    pub max_priority: int,
    pub index: int,
    pub chr: char,
    pub flag: bool,
}

/// The choice before any character is read.
pub open spec fn scan_start() -> CurrentScan {
    CurrentScan { depth: 0, max_depth: 0, inner: 0, max_priority: 0, index: 0, chr: '0', flag: false }
}

/// How strongly an operator character binds.
pub open spec fn char_priority(c: char) -> int {
    if c == '^' {
        3
    } else if c == '*' || c == '/' {
        2
    } else {
        1
    }
}

/// The choice after meeting the operator `c` at `k`: it is taken where it
/// stands deeper than the choice so far, or as deep and binding more
/// strongly; with exactly one operator counted in nested parentheses, its
/// depth counts one less.
pub open spec fn consider(st: CurrentScan, k: int, c: char) -> CurrentScan {
    let depth = if st.inner == 1 { st.depth - 1 } else { st.depth };
    let priority = char_priority(c);
    if depth > st.max_depth {
        CurrentScan { max_depth: depth, index: k, chr: c, max_priority: priority, ..st }
    } else if depth == st.max_depth && priority > st.max_priority {
        CurrentScan { max_priority: priority, index: k, chr: c, ..st }
    } else {
        st
    }
}

/// Reads the text from `k` on to choose the first operation; a message for a
/// character that may not stand in an expression.
pub open spec fn current_scan(t: Seq<char>, k: int, st: CurrentScan) -> Result<CurrentScan, Seq<char>>
    decreases t.len() - k,
{
    if k < 0 || k >= t.len() {
        Ok(st)
    } else {
        let c = t[k];
        if c == ')' {
            let inner = if st.depth > 1 { 0 } else { st.inner };
            if st.flag {
                current_scan(t, k + 1, CurrentScan { inner, flag: false, ..st })
            } else {
                current_scan(t, k + 1, CurrentScan { inner, depth: st.depth - 1, ..st })
            }
        } else if c == '(' {
            if negative_opening(t, k) {
                current_scan(t, k + 1, CurrentScan { flag: true, ..st })
            } else {
                current_scan(t, k + 1, CurrentScan { depth: st.depth + 1, ..st })
            }
        } else if operator_char(c) {
            let counted = CurrentScan { inner: if st.depth > 1 { st.inner + 1 } else { st.inner }, ..st };
            if c == '-' && st.flag {
                current_scan(t, k + 1, counted)
            } else {
                current_scan(t, k + 1, consider(counted, k, c))
            }
        } else if is_digit(c) {
            current_scan(t, k + 1, st)
        } else {
            Err(unknown_operator(c, k))
        }
    }
}

/// The operation of operator character `c` at `index` with its operands.
pub open spec fn operation_at(c: char, index: int, args: (ArgumentView, ArgumentView)) -> OperationView {
    OperationView::Apply { kind: kind_of(c), index: index as usize, arg1: args.0, arg2: args.1 }
}

/// The operation to work out first, with its operands, or the message for a
/// character that may not stand in an expression; `None` where no operator
/// was chosen.
pub open spec fn text_current(t: Seq<char>) -> Option<Result<OperationView, Seq<char>>> {
    match current_scan(t, 0, scan_start()) {
        Err(e) => Some(Err(e)),
        Ok(st) => if operator_char(st.chr) {
            Some(Ok(operation_at(st.chr, st.index, text_args(t, st.index))))
        } else {
            None
        },
    }
}

/// What reading an operator character gives.
pub open spec fn operator_from_char(chr: char, index: int, arg1: ArgumentView, arg2: ArgumentView) -> Result<
    OperationView,
    Seq<char>,
> {
    if operator_char(chr) {
        Ok(operation_at(chr, index, (arg1, arg2)))
    } else if is_digit(chr) {
        Err(seq![chr] + " is digit"@)
    } else {
        Err("unknown operator"@)
    }
}


/// Where the search for the outermost first pair of parentheses stands: the
/// depth, whether its `(` and its `)` are found, and their indices.
pub struct PairScan {
    pub depth: int,
    pub first: bool,
    pub last: bool,
    pub opening: int,
    pub closing: int,
}

/// Searches the text from `k` on for the first `(` and the `)` that closes
/// it.
pub open spec fn pair_search(t: Seq<char>, k: int, st: PairScan) -> PairScan
    decreases t.len() - k,
{
    if k < 0 || k >= t.len() {
        st
    } else if t[k] == '(' {
        let found = !st.first && !st.last;
        pair_search(
            t,
            k + 1,
            PairScan {
                first: if found { true } else { st.first },
                opening: if found { k } else { st.opening },
                depth: st.depth + 1,
                ..st
            },
        )
    } else if t[k] == ')' {
        let found = st.first && st.depth == 1 && !st.last;
        pair_search(
            t,
            k + 1,
            PairScan {
                last: if found { true } else { st.last },
                closing: if found { k } else { st.closing },
                depth: st.depth - 1,
                ..st
            },
        )
    } else {
        pair_search(t, k + 1, st)
    }
}

/// The indices of the first `(` of the text and of the `)` that closes it;
/// the second is `0` where there is no such pair.
pub open spec fn text_pair(t: Seq<char>) -> (int, int) {
    let st = pair_search(t, 0, PairScan { depth: 0, first: false, last: false, opening: 0, closing: 0 });
    (st.opening, st.closing)
}

/// Removes the first pair of parentheses while the choice of the first
/// operation stays alike without it: the final text and the text after each
/// removal. `None` where no operator can be chosen in the text or in the text
/// without the pair, or where one of them holds a character that may not
/// stand in an expression; then removing parentheses never ends.
pub open spec fn text_stripped(t: Seq<char>) -> Option<(Seq<char>, Seq<Seq<char>>)>
    decreases t.len(),
{
    let (opening, closing) = text_pair(t);
    if closing == 0 || !(0 <= opening < closing < t.len()) {
        Some((t, Seq::empty()))
    } else {
        let m = t.remove(opening).remove(closing - 1);
        match (text_current(t), text_current(m)) {
            (Some(Ok(o1)), Some(Ok(o2))) => if same_operation(o1, o2) {
                match text_stripped(m) {
                    Some((r, notes)) => Some((r, seq![m] + notes)),
                    None => None,
                }
            } else {
                Some((t, Seq::empty()))
            },
            _ => None,
        }
    }
}

/// The notes gathered so far, followed by those still to come.
pub open spec fn text_after_notes(notes: Seq<Seq<char>>, rest: Option<(Seq<char>, Seq<Seq<char>>)>) -> Option<
    (Seq<char>, Seq<Seq<char>>),
> {
    match rest {
        Some((r, more)) => Some((r, notes + more)),
        None => None,
    }
}


/// How many characters of `s` have the property `p`.
pub open spec fn count_where(s: Seq<char>, p: spec_fn(char) -> bool) -> int
    decreases s.len(),
{
    if s.len() == 0 {
        0
    } else {
        count_where(s.drop_last(), p) + if p(s.last()) { 1int } else { 0 }
    }
}

/// The counters of the text stay within `i32`: fewer than 2^31 opening
/// parentheses, closing parentheses and operators.
pub open spec fn counters_fit(t: Seq<char>) -> bool {
    &&& count_where(t, |c: char| c == '(') < 0x8000_0000
    &&& count_where(t, |c: char| c == ')') < 0x8000_0000
    &&& count_where(t, |c: char| operator_char(c)) < 0x8000_0000
}

proof fn lemma_count_prefix(t: Seq<char>, k: int, p: spec_fn(char) -> bool)
    requires
        0 <= k <= t.len(),
    ensures
        0 <= count_where(t.take(k), p) <= count_where(t, p),
    decreases t.len(),
{
    if k < t.len() {
        lemma_count_prefix(t.drop_last(), k, p);
        assert(t.drop_last().take(k) =~= t.take(k));
    } else {
        assert(t.take(k) =~= t);
    }
    lemma_count_nonnegative(t.take(k), p);
}

proof fn lemma_count_nonnegative(t: Seq<char>, p: spec_fn(char) -> bool)
    ensures
        count_where(t, p) >= 0,
    decreases t.len(),
{
    if t.len() > 0 {
        lemma_count_nonnegative(t.drop_last(), p);
    }
}

proof fn lemma_count_step(t: Seq<char>, k: int, p: spec_fn(char) -> bool)
    requires
        0 <= k < t.len(),
    ensures
        count_where(t.take(k + 1), p) == count_where(t.take(k), p) + if p(t[k]) { 1int } else { 0 },
{
    assert(t.take(k + 1).drop_last() =~= t.take(k));
}

proof fn lemma_count_remove(t: Seq<char>, i: int, p: spec_fn(char) -> bool)
    requires
        0 <= i < t.len(),
    ensures
        count_where(t.remove(i), p) <= count_where(t, p),
    decreases t.len(),
{
    if i == t.len() - 1 {
        assert(t.remove(i) =~= t.drop_last());
        lemma_count_nonnegative(t.drop_last(), p);
    } else {
        lemma_count_remove(t.drop_last(), i, p);
        assert(t.remove(i).drop_last() =~= t.drop_last().remove(i));
        assert(t.remove(i).last() == t.last());
    }
}

/// The message `Incorrect expression. {c}, index:{i}`.
fn incorrect_message(c: char, i: usize) -> (r: String)
    ensures
        r@ == incorrect(c, i as int),
{
    let mut message = String::from_str("Incorrect expression. ");
    push_char(&mut message, c);
    message.append(", index:");
    let number = index_text(i);
    message.append(number.as_str());
    message
}

/// Whether a character is a decimal digit.
pub fn digit(c: char) -> (r: bool)
    ensures
        r == is_digit(c),
{
    '0' <= c && c <= '9'
}

/// Whether a character is one of the five operators.
pub fn operator(c: char) -> (r: bool)
    ensures
        r == operator_char(c),
{
    c == '+' || c == '-' || c == '*' || c == '/' || c == '^'
}

/// An expression read from its text, by the operation to work out first.
pub struct Expression {
    pub current_operation: Operation,
}

impl Expression {
    /// Whether the `(` at `index` opens a negative number such as `(-5)`.
    pub fn is_negative(expression: &String, index: usize) -> (r: bool)
        requires
            index < usize::MAX,
        ensures
            r == negative_opening(expression@, index as int),
    {
        expression.is_negative_opening_parenthesis(index)
    }

    /// Whether the text is just a number: no operator but the minus signs of
    /// negative numbers.
    pub fn is_answer(expression: &String) -> (r: bool)
        ensures
            r == text_is_answer(expression@),
    {
        let chars = chars_of(expression);
        let ghost t = expression@;
        let mut negative_flag = false;
        let mut index: usize = 0;
        while index < chars.len()
            invariant
                chars@ == t,
                t == expression@,
                index <= t.len(),
                text_is_answer(t) == answer_scan(t, index as int, negative_flag),
            decreases chars.len() - index,
        {
            let chr = chars[index];
            if chr == '+' || chr == '*' || chr == '/' || chr == '^' {
                return false;
            } else if chr == '-' {
                if !negative_flag {
                    return false;
                }
            } else if chr == '(' {
                if Self::is_negative(expression, index) {
                    negative_flag = true;
                }
            } else if chr == ')' {
                if negative_flag {
                    negative_flag = false;
                }
            }
            index = index + 1;
        }
        true
    }

    /// Whether the operator at `index_operation` has a right operand: a
    /// digit, or a `-` after a `(`, before anything else.
    pub fn check_right_arg(expression: &String, index_operation: usize) -> (r: Result<(), String>)
        requires
            index_operation < usize::MAX,
        ensures
            match r {
                Ok(_) => text_right_check(expression@, index_operation as int) is Ok,
                Err(e) => text_right_check(expression@, index_operation as int) == Err::<(), Seq<char>>(e@),
            },
    {
        let chars = chars_of(expression);
        let ghost t = expression@;
        let mut negative_flag = false;
        let mut index: usize = index_operation + 1;
        while index < chars.len()
            invariant
                chars@ == t,
                t == expression@,
                index_operation < index,
                text_right_check(t, index_operation as int) == right_scan(t, index as int, negative_flag),
            decreases chars.len() - index,
        {
            let chr = chars[index];
            if digit(chr) {
                return Ok(());
            } else if chr == '(' {
                negative_flag = true;
            } else if chr == '-' && negative_flag {
                return Ok(());
            } else {
                return Err(incorrect_message(chr, index));
            }
            index = index + 1;
        }
        Ok(())
    }

    /// Whether the operator at `index_operation` has a left operand: a digit,
    /// or the `(` of a negative number when the operator is a `-`, before
    /// anything but `)`.
    pub fn check_left_arg(expression: &String, index_operation: usize) -> (r: Result<(), String>)
        requires
            index_operation < expression@.len(),
            ascii_text(expression@.take(index_operation + 1)),
            text_left_check(expression@, index_operation as int, byte_len(expression@)) is Some,
        ensures
            match r {
                Ok(_) => text_left_check(expression@, index_operation as int, byte_len(expression@))
                    == Some(Ok::<(), Seq<char>>(())),
                Err(e) => text_left_check(expression@, index_operation as int, byte_len(expression@))
                    == Some(Err::<(), Seq<char>>(e@)),
            },
    {
        let chars = chars_of(expression);
        let ghost t = expression@;
        let expression_len = expression.as_str().len();
        let negative_flag = chars[index_operation] == '-';
        let ghost len = byte_len(expression@);
        let mut j: usize = index_operation;
        while j > 0
            invariant
                chars@ == t,
                t == expression@,
                j <= index_operation < t.len(),
                expression_len as int == len,
                len == byte_len(expression@),
                negative_flag == (t[index_operation as int] == '-'),
                text_left_check(t, index_operation as int, len) == left_scan(
                    t,
                    j - 1,
                    negative_flag,
                    len,
                    index_operation as int,
                ),
                left_scan(t, j - 1, negative_flag, len, index_operation as int) is Some,
            decreases j,
        {
            let chr = chars[j - 1];
            let index = expression_len - index_operation - (index_operation - j) - 1;
            if digit(chr) {
                return Ok(());
            } else if chr == ')' {
            } else if chr == '(' && negative_flag {
                return Ok(());
            } else {
                return Err(incorrect_message(chr, index));
            }
            j = j - 1;
        }
        Ok(())
    }

    /// Both checks of the operator at `index_operation`; both messages, joined
    /// by a comma, when both fail.
    pub fn check_operation(expression: &String, index_operation: usize) -> (r: Result<(), String>)
        requires
            index_operation < expression@.len(),
            ascii_text(expression@.take(index_operation + 1)),
            text_left_check(expression@, index_operation as int, byte_len(expression@)) is Some,
        ensures
            match r {
                Ok(_) => text_operation_check(expression@, index_operation as int, byte_len(expression@))
                    == Some(Ok::<(), Seq<char>>(())),
                Err(e) => text_operation_check(expression@, index_operation as int, byte_len(expression@))
                    == Some(Err::<(), Seq<char>>(e@)),
            },
    {
        match (
            Self::check_left_arg(expression, index_operation),
            Self::check_right_arg(expression, index_operation),
        ) {
            (Ok(()), Ok(())) => Ok(()),
            (Ok(()), Err(e)) => Err(e),
            (Err(e), Ok(())) => Err(e),
            (Err(e1), Err(e2)) => {
                let mut message = e1;
                message.append(", ");
                message.append(e2.as_str());
                Err(message)
            },
        }
    }

    /// Checks the text: something is entered, it is not just a number, each
    /// operator has both operands, parentheses match, and only digits,
    /// operators and parentheses stand in it.
    pub fn check_expression(expression: &String) -> (r: Result<(), String>)
        requires
            count_where(expression@, |c: char| c == '(') < 0x1_0000_0000,
            text_check(expression@, byte_len(expression@)) is Some,
        ensures
            match r {
                Ok(_) => text_check(expression@, byte_len(expression@)) == Some(Ok::<(), Seq<char>>(())),
                Err(e) => text_check(expression@, byte_len(expression@)) == Some(Err::<(), Seq<char>>(e@)),
            },
    {
        let chars = chars_of(expression);
        let ghost t = expression@;
        let ghost len = byte_len(t);
        if chars.len() == 0 {
            return Err(String::from_str("nothing entered"));
        }
        if Self::is_answer(expression) {
            return Err(String::from_str("input is just number"));
        }
        let mut parenthese_number: u32 = 0;
        let mut index: usize = 0;
        while index < chars.len()
            invariant
                chars@ == t,
                t == expression@,
                len == byte_len(t),
                count_where(t, |c: char| c == '(') < 0x1_0000_0000,
                index <= t.len(),
                parenthese_number <= count_where(t.take(index as int), |c: char| c == '('),
                forall|j: int| 0 <= j < index ==> #[trigger] expression_char(t[j]),
                text_check(t, len) == check_scan(t, index as int, parenthese_number as int, len),
                check_scan(t, index as int, parenthese_number as int, len) is Some,
            decreases chars.len() - index,
        {
            let chr = chars[index];
            proof {
                lemma_count_step(t, index as int, |c: char| c == '(');
                lemma_count_prefix(t, index + 1, |c: char| c == '(');
            }
            if chr == '(' {
                parenthese_number += 1;
            } else if chr == ')' {
                if parenthese_number != 0 {
                    parenthese_number -= 1;
                } else {
                    return Err(String::from_str("Extra ')'"));
                }
            } else if operator(chr) {
                assert(ascii_text(t.take(index + 1))) by {
                    assert forall|j: int| 0 <= j < index + 1 implies (#[trigger] t.take(index + 1)[j] as u32)
                        < 128 by {
                        if j < index {
                            assert(expression_char(t[j]));
                        }
                    }
                }
                match Self::check_operation(expression, index) {
                    Ok(()) => {},
                    Err(e) => {
                        return Err(e);
                    },
                }
            } else if digit(chr) {
            } else {
                let mut message = String::from_str("unknown operator:");
                push_char(&mut message, chr);
                message.append(", index:");
                let number = index_text(index);
                message.append(number.as_str());
                assert(message@ =~= unknown_operator(chr, index as int));
                return Err(message);
            }
            index = index + 1;
        }
        if parenthese_number > 0 {
            return Err(String::from_str("Extra '('"));
        }
        Ok(())
    }

    /// The operands of the operator at `index`.
    pub fn get_args(expression: &String, index: usize) -> (r: (Argument, Argument))
        requires
            index <= expression@.len(),
            index < usize::MAX,
            ascii_text(expression@.take(index as int)),
        ensures
            (r.0@, r.1@) == text_args(expression@, index as int),
    {
        let chars = chars_of(expression);
        let ghost t = expression@;
        let mut arg1 = Argument::new();
        let mut arg2 = Argument::new();
        let mut negative_flag = false;
        let mut value = String::new();
        let mut j: usize = index;
        let ghost start = ArgScan { value: Seq::empty(), flag: false, negative: false, next_to: false };
        while j > 0
            invariant
                chars@ == t,
                t == expression@,
                j <= index <= t.len(),
                left_collect(t, index - 1, start) == left_collect(
                    t,
                    j - 1,
                    ArgScan { value: value@, flag: negative_flag, negative: arg1.negative, next_to: arg1.next_to_parenthesis },
                ),
            ensures
                left_collect(t, index - 1, start) == (ArgScan {
                    value: value@,
                    flag: negative_flag,
                    negative: arg1.negative,
                    next_to: arg1.next_to_parenthesis,
                }),
            decreases j,
        {
            let chr = chars[j - 1];
            if digit(chr) || chr == '.' {
                push_char(&mut value, chr);
            } else if chr == ')' {
                negative_flag = true;
            } else if chr == '-' {
                if negative_flag {
                    push_char(&mut value, chr);
                } else {
                    break;
                }
            } else if chr == '(' {
                if negative_flag {
                    negative_flag = false;
                    arg1.negative = true;
                } else {
                    arg1.next_to_parenthesis = true;
                }
            } else {
                break;
            }
            j = j - 1;
        }
        value.reverse();
        arg1.arg = value;
        let ghost second_start = ArgScan { value: Seq::empty(), flag: negative_flag, negative: false, next_to: false };
        let mut value = String::new();
        let mut k: usize = index + 1;
        while k < chars.len()
            invariant
                chars@ == t,
                t == expression@,
                index < k,
                right_collect(t, index + 1, second_start) == right_collect(
                    t,
                    k as int,
                    ArgScan { value: value@, flag: negative_flag, negative: arg2.negative, next_to: arg2.next_to_parenthesis },
                ),
            ensures
                right_collect(t, index + 1, second_start) == (ArgScan {
                    value: value@,
                    flag: negative_flag,
                    negative: arg2.negative,
                    next_to: arg2.next_to_parenthesis,
                }),
            decreases chars.len() - k,
        {
            let chr = chars[k];
            if digit(chr) || chr == '.' {
                push_char(&mut value, chr);
            } else if chr == '(' {
                negative_flag = true;
            } else if chr == '-' {
                if negative_flag {
                    push_char(&mut value, chr);
                } else {
                    break;
                }
            } else if chr == ')' {
                if negative_flag {
                    negative_flag = false;
                    arg2.negative = true;
                } else {
                    arg2.next_to_parenthesis = true;
                    break;
                }
            } else {
                break;
            }
            k = k + 1;
        }
        arg2.arg = value;
        (arg1, arg2)
    }
}

/// Finds the first `(` of the text and the `)` that closes it, as
/// [`text_pair`].
fn find_text_pair(chars: &Vec<char>) -> (r: (usize, usize))
    requires
        counters_fit(chars@),
    ensures
        r.0 as int == text_pair(chars@).0,
        r.1 as int == text_pair(chars@).1,
        r.1 != 0 ==> r.0 < r.1 < chars@.len(),
{
    let ghost t = chars@;
    let mut parentheses_number: i32 = 0;
    let mut first_parenthese = false;
    let mut last_parenthese = false;
    let mut index_first_opening_paranthesis: usize = 0;
    let mut index_last_closing_paranthesis: usize = 0;
    let mut index: usize = 0;
    while index < chars.len()
        invariant
            t == chars@,
            counters_fit(t),
            index <= t.len(),
            parentheses_number <= count_where(t.take(index as int), |c: char| c == '('),
            -parentheses_number <= count_where(t.take(index as int), |c: char| c == ')'),
            first_parenthese ==> index_first_opening_paranthesis < index,
            !first_parenthese ==> index_first_opening_paranthesis == 0 && !last_parenthese,
            last_parenthese ==> index_first_opening_paranthesis < index_last_closing_paranthesis < index,
            !last_parenthese ==> index_last_closing_paranthesis == 0,
            pair_search(t, 0, PairScan { depth: 0, first: false, last: false, opening: 0, closing: 0 })
                == pair_search(
                t,
                index as int,
                PairScan {
                    depth: parentheses_number as int,
                    first: first_parenthese,
                    last: last_parenthese,
                    opening: index_first_opening_paranthesis as int,
                    closing: index_last_closing_paranthesis as int,
                },
            ),
        decreases chars.len() - index,
    {
        let chr = chars[index];
        proof {
            lemma_count_step(t, index as int, |c: char| c == '(');
            lemma_count_prefix(t, index + 1, |c: char| c == '(');
            lemma_count_step(t, index as int, |c: char| c == ')');
            lemma_count_prefix(t, index + 1, |c: char| c == ')');
        }
        if chr == '(' {
            if !first_parenthese && !last_parenthese {
                first_parenthese = true;
                index_first_opening_paranthesis = index;
            }
            parentheses_number += 1;
        } else if chr == ')' {
            if first_parenthese && parentheses_number == 1 && !last_parenthese {
                index_last_closing_paranthesis = index;
                last_parenthese = true;
            }
            parentheses_number -= 1;
        }
        index = index + 1;
    }
    (index_first_opening_paranthesis, index_last_closing_paranthesis)
}

impl Operation {
    /// The operation of an operator character at `index` with its operands.
    pub fn get_operator_from_chr(chr: char, index: usize, arg1: Argument, arg2: Argument) -> (r: Result<
        Operation,
        String,
    >)
        ensures
            match r {
                Ok(op) => operator_from_char(chr, index as int, arg1@, arg2@) == Ok::<OperationView, Seq<char>>(op@),
                Err(e) => operator_from_char(chr, index as int, arg1@, arg2@) == Err::<OperationView, Seq<char>>(e@),
            },
    {
        if chr == '+' {
            Ok(Operation::Addition { index, arg1, arg2 })
        } else if chr == '-' {
            Ok(Operation::Subtraction { index, arg1, arg2 })
        } else if chr == '*' {
            Ok(Operation::Multiplication { index, arg1, arg2 })
        } else if chr == '/' {
            Ok(Operation::Division { index, arg1, arg2 })
        } else if chr == '^' {
            Ok(Operation::Exponentiation { index, arg1, arg2 })
        } else if digit(chr) {
            let mut message = String::new();
            push_char(&mut message, chr);
            message.append(" is digit");
            assert(message@ =~= seq![chr] + " is digit"@);
            Err(message)
        } else {
            Err(String::from_str("unknown operator"))
        }
    }
}

impl Expression {
    /// Chooses the operation to work out first: the operator in the deepest
    /// parentheses, and among those the one that binds most strongly, the
    /// leftmost of equals; with its operands.
    pub fn get_current_operation(expression: &String) -> (r: Result<Expression, String>)
        requires
            counters_fit(expression@),
            text_current(expression@) is Some,
        ensures
            match r {
                Ok(e) => text_current(expression@) == Some(Ok::<OperationView, Seq<char>>(e.current_operation@)),
                Err(m) => text_current(expression@) == Some(Err::<OperationView, Seq<char>>(m@)),
            },
    {
        match Self::try_current_operation(expression) {
            Some(r) => r,
            None => {
                assert(false);
                Err(String::new())
            },
        }
    }

    /// As [`Expression::get_current_operation`], or `None` where no operator
    /// is chosen.
    pub fn try_current_operation(expression: &String) -> (r: Option<Result<Expression, String>>)
        requires
            counters_fit(expression@),
        ensures
            match r {
                None => text_current(expression@) is None,
                Some(Ok(e)) => text_current(expression@) == Some(Ok::<OperationView, Seq<char>>(e.current_operation@)),
                Some(Err(m)) => text_current(expression@) == Some(Err::<OperationView, Seq<char>>(m@)),
            },
    {
        let chars = chars_of(expression);
        let ghost t = expression@;
        let mut parenthese_number: i32 = 0;
        let mut max_parenthese_number: i32 = 0;
        let mut operators_in_parentheses: i32 = 0;
        let mut max_priority: usize = 0;
        let mut operator_index_max_priority: usize = 0;
        let mut chr_operator_max_priotiry: char = '0';
        let mut negative_flag = false;
        let mut index: usize = 0;
        while index < chars.len()
            invariant
                chars@ == t,
                t == expression@,
                counters_fit(t),
                index <= t.len(),
                parenthese_number <= count_where(t.take(index as int), |c: char| c == '('),
                -parenthese_number <= count_where(t.take(index as int), |c: char| c == ')'),
                0 <= max_parenthese_number <= count_where(t.take(index as int), |c: char| c == '('),
                0 <= operators_in_parentheses <= count_where(t.take(index as int), |c: char| operator_char(c)),
                max_priority <= 3,
                operator_index_max_priority <= index,
                operator_char(chr_operator_max_priotiry) ==> operator_index_max_priority < index,
                forall|j: int| 0 <= j < index ==> #[trigger] expression_char(t[j]),
                current_scan(t, 0, scan_start()) == current_scan(
                    t,
                    index as int,
                    CurrentScan {
                        depth: parenthese_number as int,
                        max_depth: max_parenthese_number as int,
                        inner: operators_in_parentheses as int,
                        max_priority: max_priority as int,
                        index: operator_index_max_priority as int,
                        chr: chr_operator_max_priotiry,
                        flag: negative_flag,
                    },
                ),
            decreases chars.len() - index,
        {
            let chr = chars[index];
            proof {
                lemma_count_step(t, index as int, |c: char| c == '(');
                lemma_count_prefix(t, index + 1, |c: char| c == '(');
                lemma_count_step(t, index as int, |c: char| c == ')');
                lemma_count_prefix(t, index + 1, |c: char| c == ')');
                lemma_count_step(t, index as int, |c: char| operator_char(c));
                lemma_count_prefix(t, index + 1, |c: char| operator_char(c));
            }
            if chr == ')' {
                if parenthese_number > 1 {
                    operators_in_parentheses = 0;
                }
                if negative_flag {
                    negative_flag = false;
                } else {
                    parenthese_number -= 1;
                }
            } else if chr == '(' {
                if Self::is_negative(expression, index) {
                    negative_flag = true;
                } else {
                    parenthese_number += 1;
                }
            } else if operator(chr) {
                if parenthese_number > 1 {
                    operators_in_parentheses += 1;
                }
                if !(chr == '-' && negative_flag) {
                    let priority: usize = if chr == '^' {
                        3
                    } else if chr == '*' || chr == '/' {
                        2
                    } else {
                        1
                    };
                    let depth: i32 = if operators_in_parentheses == 1 {
                        parenthese_number - 1
                    } else {
                        parenthese_number
                    };
                    if depth > max_parenthese_number {
                        max_parenthese_number = depth;
                        operator_index_max_priority = index;
                        chr_operator_max_priotiry = chr;
                        max_priority = priority;
                    } else if depth == max_parenthese_number && priority > max_priority {
                        max_priority = priority;
                        operator_index_max_priority = index;
                        chr_operator_max_priotiry = chr;
                    }
                }
            } else if digit(chr) {
            } else {
                let mut message = String::from_str("unknown operator:");
                push_char(&mut message, chr);
                message.append(", index:");
                let number = index_text(index);
                message.append(number.as_str());
                assert(message@ =~= unknown_operator(chr, index as int));
                return Some(Err(message));
            }
            index = index + 1;
        }
        if !operator(chr_operator_max_priotiry) {
            return None;
        }
        assert(ascii_text(t.take(operator_index_max_priority as int))) by {
            assert forall|j: int| 0 <= j < operator_index_max_priority implies (
            #[trigger] t.take(operator_index_max_priority as int)[j] as u32) < 128 by {
                assert(expression_char(t[j]));
            }
        }
        let (arg1, arg2) = Self::get_args(expression, operator_index_max_priority);
        let current_operation = match Operation::get_operator_from_chr(
            chr_operator_max_priotiry,
            operator_index_max_priority,
            arg1,
            arg2,
        ) {
            Ok(op) => op,
            Err(e) => {
                assert(false);
                return Some(Err(e));
            },
        };
        Some(Ok(Expression { current_operation }))
    }
}

impl Expression {
    /// Two expressions are alike when their first operations are.
    pub fn eq(&self, other: &Expression) -> (r: bool)
        ensures
            r == same_operation(self.current_operation@, other.current_operation@),
    {
        self.current_operation.eq(&other.current_operation)
    }

    /// Removes the first pair of parentheses of the text again and again, as
    /// long as the operation to work out first stays alike without it. Gives
    /// the text after each removal, or `None` where no operator can be chosen
    /// in the text or in the text without the pair, or where one of them holds
    /// a character that may not stand in an expression: there removing
    /// parentheses would not end.
    pub fn check_for_extra_parentheses(expression: &mut String) -> (r: Option<Vec<String>>)
        requires
            ascii_text(old(expression)@),
            counters_fit(old(expression)@),
        ensures
            match r {
                Some(notes) => text_stripped(old(expression)@) == Some(
                    (final(expression)@, notes@.map_values(|s: String| s@)),
                ),
                None => text_stripped(old(expression)@) is None,
            },
    {
        let mut notes: Vec<String> = Vec::new();
        loop
            invariant
                ascii_text(expression@),
                counters_fit(expression@),
                text_stripped(old(expression)@) == text_after_notes(
                    notes@.map_values(|s: String| s@),
                    text_stripped(expression@),
                ),
            decreases expression@.len(),
        {
            let ghost t = expression@;
            let ghost gathered = notes@.map_values(|s: String| s@);
            let chars = chars_of(expression);
            let (opening, closing) = find_text_pair(&chars);
            if closing == 0 {
                assert(gathered + Seq::<Seq<char>>::empty() =~= gathered);
                return Some(notes);
            }
            let mut without = chars_of(expression);
            without.remove(opening);
            without.remove(closing - 1);
            let modified_expression = string_of(&without);
            let ghost m = t.remove(opening as int).remove(closing - 1);
            assert(modified_expression@ =~= m);
            proof {
                let a = t.remove(opening as int);
                lemma_count_remove(t, opening as int, |c: char| c == '(');
                lemma_count_remove(a, closing - 1, |c: char| c == '(');
                lemma_count_remove(t, opening as int, |c: char| c == ')');
                lemma_count_remove(a, closing - 1, |c: char| c == ')');
                lemma_count_remove(t, opening as int, |c: char| operator_char(c));
                lemma_count_remove(a, closing - 1, |c: char| operator_char(c));
            }
            assert(ascii_text(m)) by {
                assert forall|j: int| 0 <= j < m.len() implies (#[trigger] m[j] as u32) < 128 by {
                    let a = t.remove(opening as int);
                    if j < closing - 1 {
                        assert(m[j] == a[j]);
                    } else {
                        assert(m[j] == a[j + 1]);
                    }
                    if j < opening {
                        assert(a[j] == t[j]);
                    } else {
                        assert(a[j] == t[j + 1]);
                    }
                    assert(a[j + 1] == t[j + 1] || a[j + 1] == t[j + 2]);
                }
            }
            match (Self::try_current_operation(expression), Self::try_current_operation(&modified_expression)) {
                (Some(Ok(operation1)), Some(Ok(operation2))) => {
                    if operation1.eq(&operation2) {
                        *expression = modified_expression;
                        let note = expression.clone();
                        notes.push(note);
                        assert(notes@.map_values(|s: String| s@) =~= gathered.push(m));
                        proof {
                            match text_stripped(m) {
                                Some((r, more)) => {
                                    assert(gathered + (seq![m] + more) =~= gathered.push(m) + more);
                                },
                                None => {},
                            }
                        }
                    } else {
                        assert(gathered + Seq::<Seq<char>>::empty() =~= gathered);
                        return Some(notes);
                    }
                },
                _ => {
                    return None;
                },
            }
        }
    }
}

impl Expression {
    /// Puts the result of the first operation in place of the characters
    /// `range_start..range_stop` of the text, and tells whether the text is
    /// then just a number, the answer.
    pub fn put_result(expression: &mut String, result: &String, range_start: usize, range_stop: usize) -> (r: bool)
        requires
            ascii_text(old(expression)@),
            range_start <= range_stop <= old(expression)@.len(),
        ensures
            final(expression)@ == old(expression)@.subrange(0, range_start as int) + result@ + old(
                expression,
            )@.subrange(range_stop as int, old(expression)@.len() as int),
            r == text_is_answer(final(expression)@),
    {
        let chars = chars_of(expression);
        let added = chars_of(result);
        let mut out: Vec<char> = Vec::new();
        let ghost t = expression@;
        let mut i: usize = 0;
        while i < range_start
            invariant
                chars@ == t,
                range_start <= range_stop <= t.len(),
                i <= range_start,
                out@ == t.subrange(0, i as int),
            decreases range_start - i,
        {
            out.push(chars[i]);
            assert(out@ =~= t.subrange(0, i + 1));
            i = i + 1;
        }
        let mut j: usize = 0;
        while j < added.len()
            invariant
                out@ == t.subrange(0, range_start as int) + added@.subrange(0, j as int),
                j <= added@.len(),
            decreases added.len() - j,
        {
            out.push(added[j]);
            assert(out@ =~= t.subrange(0, range_start as int) + added@.subrange(0, j + 1));
            j = j + 1;
        }
        assert(added@.subrange(0, added@.len() as int) == added@);
        let mut k: usize = range_stop;
        while k < chars.len()
            invariant
                chars@ == t,
                range_stop <= k <= t.len(),
                out@ == t.subrange(0, range_start as int) + added@ + t.subrange(range_stop as int, k as int),
            decreases chars.len() - k,
        {
            out.push(chars[k]);
            assert(out@ =~= t.subrange(0, range_start as int) + added@ + t.subrange(range_stop as int, k + 1));
            k = k + 1;
        }
        *expression = string_of(&out);
        Self::is_answer(expression)
    }
}

} // verus!
