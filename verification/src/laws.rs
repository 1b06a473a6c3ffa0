//! Properties of the library as a whole, each proved for every input that
//! meets its premises.
use vstd::prelude::*;
use crate::text::{all_digits, decimal, digit_char, digit_value, digits_value, int_literal, int_text, is_digit, parse_int};
use crate::symbols::{all_valid, parse_prefix, symbol_text, symbols_of, symbols_text, selection, Selection, SymbolView, well_formed, pick, sorted_from, first_accepted,
    operators_of, max_level, sorted_operators, same_symbol, same_symbols, stripped, parenthesis_pair, reparsed,
    mark_tested, tested, untested_count};
use crate::operation::{ArgumentView, OperationView, OutcomeView, FloatTaskView, OpKind, priority_of, same_operation, replaced_range, wrapped, arithmetic, calculation_of};
use crate::text_expression::{text_current, text_pair, text_stripped, CurrentScan, current_scan, scan_start, consider, char_priority, expression_char};
use crate::line_editor::{after_key, key_fits, typeable, KeyPress};
use crate::text::{ascii_text, trim, trim_start, trim_end, is_white_space};

verus! {

proof fn lemma_digit_char(d: nat)
    requires
        d < 10,
    ensures
        is_digit(digit_char(d)),
        digit_value(digit_char(d)) == d,
{
}

proof fn lemma_decimal_value(n: nat)
    ensures
        decimal(n).len() > 0,
        all_digits(decimal(n)),
        digits_value(decimal(n)) == n,
    decreases n,
{
    lemma_digit_char(n % 10);
    if n >= 10 {
        lemma_decimal_value(n / 10);
        let p = decimal(n / 10);
        let s = p.push(digit_char(n % 10));
        assert(s.drop_last() == p);
        assert(s.last() == digit_char(n % 10));
        assert((n / 10) * 10 + n % 10 == n) by (nonlinear_arith);
        assert(decimal(n) == s);
        assert(digits_value(s) == digits_value(p) * 10 + digit_value(digit_char(n % 10)));
        assert(all_digits(s)) by {
            assert forall|i: int| 0 <= i < s.len() implies #[trigger] is_digit(s[i]) by {
                if i < p.len() {
                    assert(s[i] == p[i]);
                }
            }
        }
    } else {
        let s = seq![digit_char(n)];
        assert(s.drop_last() =~= Seq::<char>::empty());
        assert(decimal(n) == s);
        assert(digits_value(s.drop_last()) == 0);
        assert(digits_value(s) == digits_value(s.drop_last()) * 10 + digit_value(s.last()));
    }
}

/// Writing an integer in decimal, as the results of operations are written,
/// and reading it back as an integer of a type that holds it gives the
/// integer again; a natural number reads back as an unsigned one too.
pub proof fn law_integer_text_round_trip(v: int, lo: int, hi: int)
    requires
        lo <= v <= hi,
    ensures
        parse_int(int_text(v), true, lo, hi) == Some(v),
        v >= 0 ==> parse_int(int_text(v), false, lo, hi) == Some(v),
{
    if v < 0 {
        let n = (-v) as nat;
        lemma_decimal_value(n);
        let s = int_text(v);
        assert(s.drop_first() =~= decimal(n));
        assert(int_literal(s, true) == Some(v));
    } else {
        lemma_decimal_value(v as nat);
        lemma_digit_char(0);
        let s = decimal(v as nat);
        assert(is_digit(s[0]));
        assert(s[0] != '-' && s[0] != '+');
    }
}

proof fn lemma_prefix_text(t: Seq<char>, k: int)
    requires
        all_valid(t),
        0 <= k <= t.len(),
    ensures
        symbols_text(parse_prefix(t, k).symbols) == t.take(k),
    decreases k,
{
    if k > 0 {
        lemma_prefix_text(t, k - 1);
        crate::symbols::lemma_parse_prefix(t, k - 1);
        assert(crate::symbols::valid_char(t[k - 1]));
        let before = parse_prefix(t, k - 1).symbols;
        let after = parse_prefix(t, k).symbols;
        assert(after.drop_last() == before);
        assert(symbol_text(after.last()) == seq![t[k - 1]]);
        assert(t.take(k) =~= t.take(k - 1) + seq![t[k - 1]]);
    } else {
        assert(t.take(0) =~= Seq::<char>::empty());
    }
}

/// Reading a text that may stand as an expression into symbols gives one
/// symbol per character, and writing the symbols out again gives the text
/// back, character for character.
pub proof fn law_symbols_round_trip(t: Seq<char>)
    requires
        all_valid(t),
    ensures
        symbols_text(symbols_of(t)) == t,
        symbols_of(t).len() == t.len(),
{
    crate::symbols::lemma_parse_prefix(t, t.len() as int);
    lemma_prefix_text(t, t.len() as int);
    assert(t.take(t.len() as int) == t);
}

/// The operator at `j`, if there is one, yields to the choice `s`: it is
/// nested less deeply, or as deeply and binds less strongly, or as strongly
/// and stands further right.
pub open spec fn yields_to(v: Seq<SymbolView>, j: int, s: Selection) -> bool {
    match v[j] {
        SymbolView::Operator { operation, parenthese_number } => parenthese_number < s.level || (
        parenthese_number == s.level && (priority_of(operation) < priority_of(s.operation) || (
        priority_of(operation) == priority_of(s.operation) && s.index <= j))),
        _ => true,
    }
}

/// What the choice among the first `k` symbols is: none where every operator
/// there is nested below level zero, and otherwise an operator there to which
/// all of them yield.
pub open spec fn chosen_first(v: Seq<SymbolView>, k: int, s: Selection) -> bool {
    &&& s.operation is Zero ==> s.level == 0 && forall|j: int|
        0 <= j < k ==> match #[trigger] v[j] {
            SymbolView::Operator { parenthese_number, .. } => parenthese_number < 0,
            _ => true,
        }
    &&& s.operation is Apply ==> {
        &&& 0 <= s.index < k
        &&& v[s.index] == SymbolView::Operator { operation: s.operation, parenthese_number: s.level }
        &&& forall|j: int| 0 <= j < k ==> #[trigger] yields_to(v, j, s)
    }
}

proof fn lemma_selection(v: Seq<SymbolView>, k: int)
    requires
        well_formed(v),
        0 <= k <= v.len(),
    ensures
        chosen_first(v, k, selection(v, k)),
    decreases k,
{
    if k > 0 {
        lemma_selection(v, k - 1);
        let s = selection(v, k - 1);
        let n = selection(v, k);
        assert(match v[k - 1] {
            SymbolView::Operator { operation, .. } => operation is Apply,
            _ => true,
        });
        assert forall|j: int| 0 <= j < k implies match #[trigger] v[j] {
            SymbolView::Operator { parenthese_number, .. } => n.operation is Zero ==> parenthese_number < 0,
            _ => true,
        } by {
            if j < k - 1 {
                assert(match v[j] {
                    SymbolView::Operator { operation, .. } => operation is Apply,
                    _ => true,
                });
            }
        }
        if n.operation is Apply {
            assert forall|j: int| 0 <= j < k implies #[trigger] yields_to(v, j, n) by {
                if j < k - 1 {
                    if s.operation is Apply {
                        assert(yields_to(v, j, s));
                    }
                }
            }
        }
    }
}

/// The operation worked out first is the one nested deepest; among those,
/// the one that binds most strongly; among those, the leftmost. Where every
/// operator is nested below level zero, none is chosen.
pub proof fn law_first_operation(v: Seq<SymbolView>)
    requires
        well_formed(v),
    ensures
        chosen_first(v, v.len() as int, selection(v, v.len() as int)),
{
    lemma_selection(v, v.len() as int);
}

proof fn lemma_first_accepted(ops: Seq<SymbolView>, level: int, stage: int, k: int)
    ensures
        match first_accepted(ops, level, stage, k) {
            Some(i) => 0 <= i < ops.len(),
            None => true,
        },
    decreases ops.len() - k,
{
    if 0 <= k < ops.len() {
        lemma_first_accepted(ops, level, stage, k + 1);
    }
}

proof fn lemma_pick(ops: Seq<SymbolView>, level: int, stage: int)
    ensures
        (pick(ops, level, stage).0 + pick(ops, level, stage).1).to_multiset() == ops.to_multiset(),
{
    broadcast use vstd::seq_lib::group_to_multiset_ensures;
    broadcast use vstd::multiset::group_multiset_axioms;

    lemma_first_accepted(ops, level, stage, 0);
    match first_accepted(ops, level, stage, 0) {
        Some(i) => {
            let rest = ops.remove(i);
            vstd::seq_lib::lemma_multiset_commutative(seq![ops[i]], rest);
            assert(seq![ops[i]] =~= Seq::<SymbolView>::empty().push(ops[i]));
            assert(ops.to_multiset().contains(ops[i]));
            assert(seq![ops[i]].to_multiset().add(rest.to_multiset()) =~= ops.to_multiset());
        },
        None => {
            assert(Seq::<SymbolView>::empty() + ops =~= ops);
        },
    }
}

/// Ordering the operators from nesting `level` down moves each of them either
/// into the ordered part or into what is left, and loses or adds none.
pub proof fn law_sorting_keeps_operators(ops: Seq<SymbolView>, level: int)
    ensures
        (sorted_from(ops, level).0 + sorted_from(ops, level).1).to_multiset() == ops.to_multiset(),
    decreases level + 1,
{
    broadcast use vstd::seq_lib::lemma_multiset_commutative;

    if level >= 0 {
        let (r1, o1) = pick(ops, level, 0);
        let (r2, o2) = pick(o1, level, 1);
        let (r3, o3) = pick(o2, level, 2);
        let (rest, left) = sorted_from(o3, level - 1);
        lemma_pick(ops, level, 0);
        lemma_pick(o1, level, 1);
        lemma_pick(o2, level, 2);
        law_sorting_keeps_operators(o3, level - 1);
        assert(r1 + r2 + r3 + rest + left =~= r1 + (r2 + (r3 + (rest + left))));
        assert((r1 + r2 + r3 + rest + left).to_multiset() =~= ops.to_multiset());
    } else {
        assert(Seq::<SymbolView>::empty() + ops =~= ops);
    }
}

proof fn lemma_operators_update(v: Seq<SymbolView>, i: int, x: SymbolView)
    requires
        0 <= i < v.len(),
        !(v[i] is Operator),
        !(x is Operator),
    ensures
        operators_of(v.update(i, x)) == operators_of(v),
        max_level(v.update(i, x)) == max_level(v),
    decreases v.len(),
{
    let w = v.update(i, x);
    if i < v.len() - 1 {
        lemma_operators_update(v.drop_last(), i, x);
        assert(w.drop_last() == v.drop_last().update(i, x));
        assert(w.last() == v.last());
    } else {
        assert(w.drop_last() == v.drop_last());
    }
}

proof fn lemma_operators_well_formed(v: Seq<SymbolView>)
    requires
        well_formed(v),
    ensures
        well_formed(operators_of(v)),
    decreases v.len(),
{
    if v.len() > 0 {
        let u = v.drop_last();
        assert(well_formed(u)) by {
            assert forall|i: int| 0 <= i < u.len() implies match #[trigger] u[i] {
                SymbolView::Digit { chr } => crate::symbols::digit_like(chr) || chr == '-',
                SymbolView::Operator { operation, .. } => operation is Apply,
                _ => true,
            } by {
                assert(u[i] == v[i]);
            }
        }
        lemma_operators_well_formed(u);
        let p = operators_of(u);
        assert(match v[v.len() - 1] {
            SymbolView::Digit { chr } => crate::symbols::digit_like(chr) || chr == '-',
            SymbolView::Operator { operation, .. } => operation is Apply,
            _ => true,
        });
        if v.last() is Operator {
            let q = p.push(v.last());
            assert forall|i: int| 0 <= i < q.len() implies match #[trigger] q[i] {
                SymbolView::Digit { chr } => crate::symbols::digit_like(chr) || chr == '-',
                SymbolView::Operator { operation, .. } => operation is Apply,
                _ => true,
            } by {
                if i < p.len() {
                    assert(q[i] == p[i]);
                }
            }
        }
    }
}

proof fn lemma_sorted_well_formed(v: Seq<SymbolView>)
    requires
        well_formed(v),
    ensures
        well_formed(sorted_operators(v)),
{
    broadcast use vstd::seq_lib::group_to_multiset_ensures;
    broadcast use vstd::seq_lib::lemma_multiset_commutative;

    let ops = operators_of(v);
    lemma_operators_well_formed(v);
    law_sorting_keeps_operators(ops, max_level(v));
    let (taken, left) = sorted_from(ops, max_level(v));
    assert forall|i: int| 0 <= i < taken.len() implies match #[trigger] taken[i] {
        SymbolView::Digit { chr } => crate::symbols::digit_like(chr) || chr == '-',
        SymbolView::Operator { operation, .. } => operation is Apply,
        _ => true,
    } by {
        let x = taken[i];
        assert((taken + left)[i] == x);
        assert((taken + left).contains(x));
        assert(ops.to_multiset().count(x) > 0);
        assert(ops.contains(x));
        let j = choose|j: int| 0 <= j < ops.len() && ops[j] == x;
        assert(match ops[j] {
            SymbolView::Digit { chr } => crate::symbols::digit_like(chr) || chr == '-',
            SymbolView::Operator { operation, .. } => operation is Apply,
            _ => true,
        });
    }
}

proof fn lemma_same_symbols_reflexive(a: Seq<SymbolView>)
    requires
        well_formed(a),
    ensures
        same_symbols(a, a),
{
    assert forall|i: int| 0 <= i < a.len() implies #[trigger] same_symbol(a[i], a[i]) by {
        assert(match a[i] {
            SymbolView::Digit { chr } => crate::symbols::digit_like(chr) || chr == '-',
            SymbolView::Operator { operation, .. } => operation is Apply,
            _ => true,
        });
    }
}

proof fn lemma_same_symbols_transitive(a: Seq<SymbolView>, b: Seq<SymbolView>, c: Seq<SymbolView>)
    requires
        same_symbols(a, b),
        same_symbols(b, c),
    ensures
        same_symbols(a, c),
{
    assert forall|i: int| 0 <= i < a.len() implies #[trigger] same_symbol(a[i], c[i]) by {
        assert(same_symbol(a[i], b[i]));
        assert(same_symbol(b[i], c[i]));
    }
}

/// Removing the parentheses that make no difference leaves the operators
/// ordered alike: the expression that comes out works its operators out in
/// the order of the expression that went in.
pub proof fn law_stripping_keeps_order(v: Seq<SymbolView>)
    requires
        stripped(v) is Some,
    ensures
        same_symbols(sorted_operators(v), sorted_operators(stripped(v).unwrap().0)),
    decreases v.len(), untested_count(v),
{
    let (o, c) = parenthesis_pair(v);
    crate::symbols::lemma_pair(v);
    lemma_sorted_well_formed(v);
    if c == 0 {
        lemma_same_symbols_reflexive(sorted_operators(v));
    } else {
        let m = reparsed(v.remove(c).remove(o));
        if same_symbols(sorted_operators(v), sorted_operators(m)) {
            crate::symbols::lemma_removed_well_formed(v, c);
            crate::symbols::lemma_removed_well_formed(v.remove(c), o);
            crate::symbols::lemma_reparsed(v.remove(c).remove(o));
            law_stripping_keeps_order(m);
            lemma_same_symbols_transitive(
                sorted_operators(v),
                sorted_operators(m),
                sorted_operators(stripped(m).unwrap().0),
            );
        } else {
            let w = mark_tested(v, o, c);
            crate::symbols::lemma_mark_tested(v, o, c);
            lemma_operators_update(v, o, tested(v[o]));
            lemma_operators_update(v.update(o, tested(v[o])), c, tested(v[c]));
            law_stripping_keeps_order(w);
        }
    }
}

/// The operation to work out first in a text, or `Zero` where none is chosen.
pub open spec fn first_operation_of(t: Seq<char>) -> OperationView {
    match text_current(t) {
        Some(Ok(o)) => o,
        _ => OperationView::Zero,
    }
}

/// Removing the parentheses of a text that make no difference keeps the
/// operation to work out first alike: same operator, operands of the same
/// texts.
pub proof fn law_text_stripping_keeps_first_operation(t: Seq<char>)
    requires
        text_stripped(t) is Some,
        text_current(t) matches Some(Ok(_)),
    ensures
        text_current(text_stripped(t).unwrap().0) is Some,
        text_current(text_stripped(t).unwrap().0).unwrap() is Ok,
        same_operation(first_operation_of(t), first_operation_of(text_stripped(t).unwrap().0)),
    decreases t.len(),
{
    let (opening, closing) = text_pair(t);
    let o1 = first_operation_of(t);
    assert(o1 is Apply);
    if closing == 0 || !(0 <= opening < closing < t.len()) {
    } else {
        let m = t.remove(opening).remove(closing - 1);
        let o2 = first_operation_of(m);
        if same_operation(o1, o2) {
            law_text_stripping_keeps_first_operation(m);
        }
    }
}

proof fn lemma_ascii_bytes(t: Seq<char>)
    requires
        ascii_text(t),
        t.len() <= usize::MAX,
    ensures
        crate::operation::byte_len(t) == t.len(),
{
    lemma_ascii_encoding(t);
}

proof fn lemma_ascii_encoding(t: Seq<char>)
    requires
        ascii_text(t),
    ensures
        vstd::utf8::encode_utf8(t).len() == t.len(),
    decreases t.len(),
{
    if t.len() > 0 {
        let u = t.drop_first();
        assert forall|i: int| 0 <= i < u.len() implies (#[trigger] u[i] as u32) < 128 by {
            assert(u[i] == t[i + 1]);
        }
        lemma_ascii_encoding(u);
        assert((t[0] as u32) < 128);
    }
}

/// An ASCII line stays ASCII and its cursor stays within it, from the first
/// column to the one after the last character, whatever key comes.
pub proof fn law_cursor_stays_in_line(text: Seq<char>, cursor: int, key: KeyPress)
    requires
        key_fits(text, cursor, key),
        ascii_text(text),
        text.len() <= usize::MAX,
        1 <= cursor <= text.len() + 1,
    ensures
        ascii_text(after_key(text, cursor, key).0),
        1 <= after_key(text, cursor, key).1 <= after_key(text, cursor, key).0.len() + 1,
{
    lemma_ascii_bytes(text);
    match key {
        KeyPress::Char(c) => {
            if c != '\n' && c != 'q' && typeable(c) {
                let t = text.insert(cursor - 1, c);
                assert forall|i: int| 0 <= i < t.len() implies (#[trigger] t[i] as u32) < 128 by {
                    if i < cursor - 1 {
                        assert(t[i] == text[i]);
                    } else if i > cursor - 1 {
                        assert(t[i] == text[i - 1]);
                    }
                }
            }
        },
        KeyPress::Backspace => {
            if cursor > 1 {
                let t = text.remove(cursor - 2);
                assert forall|i: int| 0 <= i < t.len() implies (#[trigger] t[i] as u32) < 128 by {
                    if i < cursor - 2 {
                        assert(t[i] == text[i]);
                    } else {
                        assert(t[i] == text[i + 1]);
                    }
                }
            }
        },
        _ => {},
    }
}

/// Typing a character and then deleting it with backspace leaves the line and
/// the cursor as they were.
pub proof fn law_backspace_undoes_typing(text: Seq<char>, cursor: int, c: char)
    requires
        typeable(c),
        key_fits(text, cursor, KeyPress::Char(c)),
    ensures
        ({
            let (t1, c1, _) = after_key(text, cursor, KeyPress::Char(c));
            let (t2, c2, _) = after_key(t1, c1, KeyPress::Backspace);
            t2 == text && c2 == cursor
        }),
{
    let t1 = text.insert(cursor - 1, c);
    assert(t1.remove(cursor - 1) =~= text);
}

/// Reversing a text twice gives it back.
pub proof fn law_reverse_twice(s: Seq<char>)
    ensures
        s.reverse().reverse() == s,
{
    assert(s.reverse().reverse() =~= s);
}

/// The symbols that the result of an operation replaces take in the
/// operator itself and both operands.
pub proof fn law_result_covers_operation(index: usize, a1: ArgumentView, a2: ArgumentView)
    requires
        replaced_range(index, a1, a2) is Some,
    ensures
        ({
            let (start, stop) = replaced_range(index, a1, a2).unwrap();
            start <= index - crate::operation::byte_len(a1.arg) && index
                + crate::operation::byte_len(a2.arg) < stop
        }),
{
}

/// The exact result of an operation, written as the expression writes it
/// (a negative one in parentheses), holds only characters that may stand in
/// an expression and no white space to trim: it always reads back as symbols.
pub proof fn law_exact_results_read_back(v: int)
    ensures
        all_valid(wrapped(int_text(v))),
        trim(wrapped(int_text(v))) == wrapped(int_text(v)),
{
    let n = if v < 0 { (-v) as nat } else { v as nat };
    lemma_decimal_value(n);
    let d = decimal(n);
    let t = wrapped(int_text(v));
    crate::text::lemma_int_text_start(v);
    assert forall|i: int| 0 <= i < t.len() implies #[trigger] crate::symbols::valid_char(t[i]) && !is_white_space(t[i]) by {
        if v < 0 {
            let s = seq!['('] + (seq!['-'] + d) + seq![')'];
            assert(t == s);
            if 2 <= i < t.len() - 1 {
                assert(t[i] == d[i - 2]);
                assert(is_digit(d[i - 2]));
            }
        } else {
            assert(t == d);
            assert(is_digit(d[i]));
        }
    }
    assert(trim_start(t) == t);
    assert(trim_end(t) == t);
}

/// On an ASCII line, moving the cursor left and then right brings it back,
/// wherever it is not already at the first column.
pub proof fn law_left_then_right(text: Seq<char>, cursor: int)
    requires
        ascii_text(text),
        text.len() <= usize::MAX,
        1 < cursor <= text.len() + 1,
    ensures
        ({
            let (t1, c1, _) = after_key(text, cursor, KeyPress::Left);
            let (t2, c2, _) = after_key(t1, c1, KeyPress::Right);
            t2 == text && c2 == cursor
        }),
{
    lemma_ascii_bytes(text);
}

/// The text without its parentheses.
pub open spec fn without_parentheses(t: Seq<char>) -> Seq<char>
    decreases t.len(),
{
    if t.len() == 0 {
        Seq::empty()
    } else {
        let rest = without_parentheses(t.drop_last());
        if t.last() == '(' || t.last() == ')' {
            rest
        } else {
            rest.push(t.last())
        }
    }
}

proof fn lemma_remove_parenthesis(t: Seq<char>, i: int)
    requires
        0 <= i < t.len(),
        t[i] == '(' || t[i] == ')',
    ensures
        without_parentheses(t.remove(i)) == without_parentheses(t),
    decreases t.len(),
{
    if i == t.len() - 1 {
        assert(t.remove(i) =~= t.drop_last());
    } else {
        lemma_remove_parenthesis(t.drop_last(), i);
        assert(t.remove(i).drop_last() =~= t.drop_last().remove(i));
        assert(t.remove(i).last() == t.last());
    }
}

proof fn lemma_pair_search(t: Seq<char>, k: int, st: crate::text_expression::PairScan)
    requires
        0 <= k <= t.len(),
        st.first ==> 0 <= st.opening < k && t[st.opening] == '(',
        st.last ==> st.first && st.opening < st.closing < k && t[st.closing] == ')',
        !st.last ==> st.closing == 0,
    ensures
        ({
            let r = crate::text_expression::pair_search(t, k, st);
            &&& r.first ==> 0 <= r.opening < t.len() && t[r.opening] == '('
            &&& r.last ==> r.first && r.opening < r.closing < t.len() && t[r.closing] == ')'
            &&& !r.last ==> r.closing == 0
        }),
    decreases t.len() - k,
{
    if k < t.len() {
        let c = t[k];
        if c == '(' {
            let found = !st.first && !st.last;
            lemma_pair_search(
                t,
                k + 1,
                crate::text_expression::PairScan {
                    first: if found { true } else { st.first },
                    opening: if found { k } else { st.opening },
                    depth: st.depth + 1,
                    ..st
                },
            );
        } else if c == ')' {
            let found = st.first && st.depth == 1 && !st.last;
            lemma_pair_search(
                t,
                k + 1,
                crate::text_expression::PairScan {
                    last: if found { true } else { st.last },
                    closing: if found { k } else { st.closing },
                    depth: st.depth - 1,
                    ..st
                },
            );
        } else {
            lemma_pair_search(t, k + 1, st);
        }
    }
}

/// Removing the parentheses of a text that make no difference removes
/// nothing else: with every `(` and `)` deleted, the text that comes out is
/// the text that went in.
pub proof fn law_text_stripping_removes_only_parentheses(t: Seq<char>)
    requires
        text_stripped(t) is Some,
    ensures
        without_parentheses(text_stripped(t).unwrap().0) == without_parentheses(t),
    decreases t.len(),
{
    let (opening, closing) = text_pair(t);
    lemma_pair_search(
        t,
        0,
        crate::text_expression::PairScan { depth: 0, first: false, last: false, opening: 0, closing: 0 },
    );
    if closing == 0 || !(0 <= opening < closing < t.len()) {
    } else {
        let a = t.remove(opening);
        let m = a.remove(closing - 1);
        assert(a[closing - 1] == t[closing]);
        lemma_remove_parenthesis(t, opening);
        lemma_remove_parenthesis(a, closing - 1);
        if text_stripped(m) is Some && text_stripped(t) != Some((t, Seq::<Seq<char>>::empty())) {
            law_text_stripping_removes_only_parentheses(m);
        }
    }
}

/// Each pair of parentheses that removing extra parentheses drops from the
/// symbols begins at an opening parenthesis. Where the search finds no
/// opening before the closing parenthesis, the symbol at index `0` is what
/// would be dropped.
pub open spec fn drops_parenthesis_pairs(v: Seq<SymbolView>) -> bool
    decreases v.len(), untested_count(v),
{
    if !well_formed(v) {
        true
    } else {
        let (o, c) = parenthesis_pair(v);
        if c == 0 {
            true
        } else {
            let m = reparsed(v.remove(c).remove(o));
            if same_symbols(sorted_operators(v), sorted_operators(m)) {
                proof {
                    crate::symbols::lemma_pair(v);
                    crate::symbols::lemma_removed_well_formed(v, c);
                    crate::symbols::lemma_removed_well_formed(v.remove(c), o);
                    crate::symbols::lemma_reparsed(v.remove(c).remove(o));
                }
                v[o] is OpeningParenthesis && drops_parenthesis_pairs(m)
            } else if v[o] is OpeningParenthesis {
                proof {
                    crate::symbols::lemma_pair(v);
                    crate::symbols::lemma_mark_tested(v, o, c);
                }
                drops_parenthesis_pairs(mark_tested(v, o, c))
            } else {
                true
            }
        }
    }
}

proof fn lemma_text_remove(v: Seq<SymbolView>, i: int)
    requires
        well_formed(v),
        0 <= i < v.len(),
    ensures
        symbols_text(v.remove(i)) == symbols_text(v).remove(i),
        symbols_text(v).len() == v.len(),
        v[i] is OpeningParenthesis ==> symbols_text(v)[i] == '(',
        v[i] is ClosingParenthesis ==> symbols_text(v)[i] == ')',
{
    crate::symbols::lemma_removed_well_formed(v, i);
    crate::symbols::lemma_symbols_text(v);
    crate::symbols::lemma_symbols_text(v.remove(i));
    let a = symbols_text(v.remove(i));
    let b = symbols_text(v).remove(i);
    assert forall|j: int| 0 <= j < a.len() implies a[j] == b[j] by {
        if j < i {
            assert(v.remove(i)[j] == v[j]);
        } else {
            assert(v.remove(i)[j] == v[j + 1]);
        }
    }
    assert(a =~= b);
}

proof fn lemma_text_marked(v: Seq<SymbolView>, o: int, c: int)
    requires
        well_formed(v),
        well_formed(mark_tested(v, o, c)),
        0 <= o < c < v.len(),
    ensures
        symbols_text(mark_tested(v, o, c)) == symbols_text(v),
{
    let w = mark_tested(v, o, c);
    crate::symbols::lemma_symbols_text(v);
    crate::symbols::lemma_symbols_text(w);
    assert forall|j: int| 0 <= j < v.len() implies symbols_text(w)[j] == symbols_text(v)[j] by {
        assert(crate::symbols::symbol_char(w[j]) == crate::symbols::symbol_char(v[j]));
    }
    assert(symbols_text(w) =~= symbols_text(v));
}

/// Removing the parentheses that make no difference removes nothing else:
/// where each pair dropped begins at an opening parenthesis, the text of the
/// expression that comes out equals the text that went in once every `(`
/// and `)` is deleted from both. The premise is needed: from
/// `2+2*(((1-(2)^(-2)-2)))`, which passes the checks, the pair search at one
/// step finds no opening parenthesis, and the leading `2` is dropped.
pub proof fn law_stripping_removes_only_parentheses(v: Seq<SymbolView>)
    requires
        stripped(v) is Some,
        drops_parenthesis_pairs(v),
    ensures
        without_parentheses(symbols_text(stripped(v).unwrap().0)) == without_parentheses(symbols_text(v)),
    decreases v.len(), untested_count(v),
{
    let (o, c) = parenthesis_pair(v);
    crate::symbols::lemma_pair(v);
    if c != 0 {
        let m = reparsed(v.remove(c).remove(o));
        if same_symbols(sorted_operators(v), sorted_operators(m)) {
            crate::symbols::lemma_removed_well_formed(v, c);
            crate::symbols::lemma_removed_well_formed(v.remove(c), o);
            crate::symbols::lemma_reparsed(v.remove(c).remove(o));
            let w = v.remove(c).remove(o);
            let t = symbols_text(v);
            lemma_text_remove(v, c);
            lemma_text_remove(v.remove(c), o);
            assert(v.remove(c)[o] == v[o]);
            law_symbols_round_trip(symbols_text(w));
            assert(symbols_text(m) == symbols_text(w));
            assert(t.remove(c)[o] == t[o]);
            lemma_remove_parenthesis(t, c);
            lemma_remove_parenthesis(t.remove(c), o);
            law_stripping_removes_only_parentheses(m);
        } else {
            let w = mark_tested(v, o, c);
            crate::symbols::lemma_mark_tested(v, o, c);
            lemma_text_marked(v, o, c);
            law_stripping_removes_only_parentheses(w);
        }
    }
}

/// What reading puts at place `i` for the character `c` found there: a digit
/// is that character, an operator knows its kind and its own place with no
/// operands read yet, and a parenthesis is untested.
pub open spec fn read_as(s: SymbolView, c: char, i: int) -> bool {
    match s {
        SymbolView::Digit { chr } => chr == c,
        SymbolView::Operator { operation, .. } => operation == OperationView::Apply {
            kind: crate::symbols::kind_of(c),
            index: i as usize,
            arg1: crate::operation::empty_argument(),
            arg2: crate::operation::empty_argument(),
        },
        SymbolView::OpeningParenthesis { checked, .. } => !checked && c == '(',
        SymbolView::ClosingParenthesis { checked, .. } => !checked && c == ')',
    }
}

proof fn lemma_prefix_read(t: Seq<char>, k: int)
    requires
        all_valid(t),
        0 <= k <= t.len(),
    ensures
        parse_prefix(t, k).symbols.len() == k,
        forall|i: int| 0 <= i < k ==> read_as(#[trigger] parse_prefix(t, k).symbols[i], t[i], i),
    decreases k,
{
    crate::symbols::lemma_parse_prefix(t, k);
    if k > 0 {
        lemma_prefix_read(t, k - 1);
        assert(crate::symbols::valid_char(t[k - 1]));
        let before = parse_prefix(t, k - 1).symbols;
        let after = parse_prefix(t, k).symbols;
        assert forall|i: int| 0 <= i < k implies read_as(#[trigger] after[i], t[i], i) by {
            if i < k - 1 {
                assert(after[i] == before[i]);
            }
        }
    }
}

/// Reading a text that may stand as an expression gives one symbol per
/// character: each digit is its character, each operator knows its kind and
/// its own place with no operands read yet, and every parenthesis is
/// untested.
pub proof fn law_read_symbols(t: Seq<char>)
    requires
        all_valid(t),
    ensures
        symbols_of(t).len() == t.len(),
        forall|i: int| 0 <= i < t.len() ==> read_as(#[trigger] symbols_of(t)[i], t[i], i),
{
    lemma_prefix_read(t, t.len() as int);
}

/// The choice of the first operation after one more character of the text.
pub open spec fn scan_step(t: Seq<char>, k: int, st: CurrentScan) -> CurrentScan {
    let c = t[k];
    if c == ')' {
        let inner = if st.depth > 1 { 0 } else { st.inner };
        if st.flag {
            CurrentScan { inner, flag: false, ..st }
        } else {
            CurrentScan { inner, depth: st.depth - 1, ..st }
        }
    } else if c == '(' {
        if crate::my_extension::negative_opening(t, k) {
            CurrentScan { flag: true, ..st }
        } else {
            CurrentScan { depth: st.depth + 1, ..st }
        }
    } else if operator_char_of(c) {
        let counted = counted_at(st);
        if c == '-' && st.flag {
            counted
        } else {
            consider(counted, k, c)
        }
    } else {
        st
    }
}

/// An operator character.
pub open spec fn operator_char_of(c: char) -> bool {
    crate::symbols::operator_char(c)
}

/// The choice with one more operator counted in nested parentheses, where the
/// depth is above one.
pub open spec fn counted_at(st: CurrentScan) -> CurrentScan {
    CurrentScan { inner: if st.depth > 1 { st.inner + 1 } else { st.inner }, ..st }
}

/// The choice of the first operation before the character at `k`.
pub open spec fn scan_before(t: Seq<char>, k: int) -> CurrentScan
    decreases k,
{
    if k <= 0 {
        scan_start()
    } else {
        scan_step(t, k - 1, scan_before(t, k - 1))
    }
}

/// The operator at `j` takes part in the choice: it is not the sign of a
/// negative number.
pub open spec fn takes_part(t: Seq<char>, j: int) -> bool {
    operator_char_of(t[j]) && !(t[j] == '-' && scan_before(t, j).flag)
}

/// The depth at which the operator at `j` counts: its depth of parentheses,
/// one less where it is the only operator counted in nested parentheses.
pub open spec fn counted_depth(t: Seq<char>, j: int) -> int {
    let st = counted_at(scan_before(t, j));
    if st.inner == 1 { st.depth - 1 } else { st.depth }
}

/// What the choice among the first `k` characters is: none where every
/// operator that takes part counts below depth zero, and otherwise one that
/// takes part, to which every other yields: it counts less deep, or as deep
/// and binds less strongly, or as strongly and stands further right.
pub open spec fn text_chosen(t: Seq<char>, k: int, st: CurrentScan) -> bool {
    &&& !operator_char_of(st.chr) ==> st.max_depth == 0 && st.max_priority == 0 && forall|j: int|
        0 <= j < k && #[trigger] takes_part(t, j) ==> counted_depth(t, j) < 0
    &&& operator_char_of(st.chr) ==> {
        &&& 0 <= st.index < k
        &&& takes_part(t, st.index)
        &&& t[st.index] == st.chr
        &&& counted_depth(t, st.index) == st.max_depth
        &&& char_priority(st.chr) == st.max_priority
        &&& forall|j: int|
            0 <= j < k && #[trigger] takes_part(t, j) ==> counted_depth(t, j) < st.max_depth || (
            counted_depth(t, j) == st.max_depth && (char_priority(t[j]) < st.max_priority || (
            char_priority(t[j]) == st.max_priority && st.index <= j)))
    }
}

proof fn lemma_text_choice(t: Seq<char>, k: int)
    requires
        0 <= k <= t.len(),
    ensures
        text_chosen(t, k, scan_before(t, k)),
    decreases k,
{
    if k > 0 {
        lemma_text_choice(t, k - 1);
        let s = scan_before(t, k - 1);
        let n = scan_before(t, k);
        let c = t[k - 1];
        assert(n == scan_step(t, k - 1, s));
        assert forall|j: int| 0 <= j < k && #[trigger] takes_part(t, j) implies (!operator_char_of(n.chr)
            ==> counted_depth(t, j) < 0) && (operator_char_of(n.chr) ==> (counted_depth(t, j)
            < n.max_depth || (counted_depth(t, j) == n.max_depth && (char_priority(t[j])
            < n.max_priority || (char_priority(t[j]) == n.max_priority && n.index <= j))))) by {
            if j < k - 1 {
                assert(takes_part(t, j));
            }
        }
    }
}

proof fn lemma_scan_before(t: Seq<char>, k: int)
    requires
        0 <= k <= t.len(),
        current_scan(t, 0, scan_start()) is Ok,
    ensures
        current_scan(t, 0, scan_start()) == current_scan(t, k, scan_before(t, k)),
        forall|j: int| 0 <= j < k ==> #[trigger] expression_char(t[j]),
    decreases k,
{
    if k > 0 {
        lemma_scan_before(t, k - 1);
        let s = scan_before(t, k - 1);
        if !expression_char(t[k - 1]) {
            assert(current_scan(t, k - 1, s) is Err);
        }
        assert(current_scan(t, k - 1, s) == current_scan(t, k, scan_step(t, k - 1, s)));
    }
}

/// In a text of which no character is refused, the operation worked out
/// first is the operator that counts deepest, among those the one that binds
/// most strongly, among those the leftmost; operators that are signs of
/// negative numbers take no part. An operator counts at its depth of
/// parentheses, one less where it is the only operator counted in nested
/// parentheses. Where every operator counts below depth zero, none is chosen.
pub proof fn law_text_first_operation(t: Seq<char>)
    requires
        current_scan(t, 0, scan_start()) is Ok,
    ensures
        current_scan(t, 0, scan_start()) == Ok::<CurrentScan, Seq<char>>(scan_before(t, t.len() as int)),
        text_chosen(t, t.len() as int, scan_before(t, t.len() as int)),
{
    lemma_scan_before(t, t.len() as int);
    lemma_text_choice(t, t.len() as int);
}

proof fn lemma_plain_operand(a: Seq<char>)
    requires
        a.len() > 0,
        all_digits(a),
        digits_value(a) <= u64::MAX,
    ensures
        crate::operation::as_u64(a) == Some(digits_value(a) as int),
        !a.contains('.'),
{
    assert(!is_white_space(a[0]) && !is_white_space(a.last())) by {
        assert(is_digit(a[0]));
        assert(is_digit(a[a.len() - 1]));
    }
    assert(trim_start(a) == a);
    assert(trim_end(a) == a);
    assert(is_digit(a[0]));
    assert(int_literal(a, false) == Some(digits_value(a) as int));
    if a.contains('.') {
        let i = choose|i: int| 0 <= i < a.len() && a[i] == '.';
        assert(is_digit(a[i]));
    }
}

/// Dividing one natural number written in digits by another that is not zero
/// gives the exact quotient, written in decimal, when the second divides the
/// first, and otherwise leaves the quotient of the two numbers to be worked
/// out as a float.
pub proof fn law_plain_division(index: usize, a1: ArgumentView, a2: ArgumentView)
    requires
        a1.arg.len() > 0,
        all_digits(a1.arg),
        digits_value(a1.arg) <= u64::MAX,
        a2.arg.len() > 0,
        all_digits(a2.arg),
        digits_value(a2.arg) <= u64::MAX,
        digits_value(a2.arg) != 0,
        !a1.negative,
        !a2.negative,
    ensures
        ({
            let x = digits_value(a1.arg) as int;
            let y = digits_value(a2.arg) as int;
            let o = arithmetic(OpKind::Division, a1, a2);
            &&& x % y == 0 ==> o == Some(OutcomeView::Exact(decimal((x / y) as nat)))
            &&& x % y != 0 ==> o == Some(
                OutcomeView::Float(FloatTaskView::Quotient { numerator: x, denominator: y }),
            )
            &&& calculation_of(OperationView::Apply { kind: OpKind::Division, index, arg1: a1, arg2: a2 })
                matches Some(c) ==> Some(c.outcome) == o
        }),
{
    lemma_plain_operand(a1.arg);
    lemma_plain_operand(a2.arg);
    let x = digits_value(a1.arg) as int;
    let y = digits_value(a2.arg) as int;
    if x % y == 0 {
        let q = (x / y) as nat;
        assert(x / y >= 0) by (nonlinear_arith)
            requires
                x >= 0,
                y > 0,
        ;
        lemma_decimal_value(q);
        assert(is_digit(decimal(q)[0]));
        assert(int_text(x / y) == decimal(q));
        assert(wrapped(decimal(q)) == decimal(q));
    }
}

/// The right operand read after an operator takes in every digit, decimal
/// point and sign that follows it, up to the first symbol of another kind:
/// its text begins with the characters of that whole run, in order.
pub proof fn law_right_operand_takes_whole_number(v: Seq<SymbolView>, k: int, n: int)
    requires
        0 <= k,
        0 <= n,
        k + n <= v.len(),
        forall|i: int| 0 <= i < n ==> (#[trigger] v[k + i] is Digit),
    ensures
        crate::symbols::right_operand(v, k).arg.len() >= n,
        forall|i: int|
            0 <= i < n ==> #[trigger] v[k + i] == (SymbolView::Digit {
                chr: crate::symbols::right_operand(v, k).arg[i],
            }),
    decreases n,
{
    if n > 0 {
        assert(v[k + 0] is Digit);
        assert forall|i: int| 0 <= i < n - 1 implies (#[trigger] v[k + 1 + i] is Digit) by {
            assert(v[k + (i + 1)] is Digit);
        }
        law_right_operand_takes_whole_number(v, k + 1, n - 1);
        let r = crate::symbols::right_operand(v, k + 1);
        assert forall|i: int| 0 <= i < n implies #[trigger] v[k + i] == (SymbolView::Digit {
            chr: crate::symbols::right_operand(v, k).arg[i],
        }) by {
            if i > 0 {
                assert(v[k + 1 + (i - 1)] == SymbolView::Digit { chr: r.arg[i - 1] });
            }
        }
    }
}

/// An operator that a multiplicative stage of the ordering takes: `^`, `*` or
/// `/`, at the given nesting level.
pub open spec fn multiplicative_at(s: SymbolView, level: int) -> bool {
    s matches SymbolView::Operator { operation: OperationView::Apply { kind, .. }, parenthese_number }
        && parenthese_number == level && (kind == OpKind::Exponentiation || kind
        == OpKind::Multiplication || kind == OpKind::Division)
}

proof fn lemma_first_multiplicative(ops: Seq<SymbolView>, level: int, k: int)
    requires
        0 <= k <= ops.len(),
    ensures
        match first_accepted(ops, level, 1, k) {
            Some(i) => k <= i < ops.len() && multiplicative_at(ops[i], level) && forall|j: int|
                k <= j < i ==> !multiplicative_at(#[trigger] ops[j], level),
            None => forall|j: int| k <= j < ops.len() ==> !multiplicative_at(#[trigger] ops[j], level),
        },
    decreases ops.len() - k,
{
    if k < ops.len() {
        lemma_first_multiplicative(ops, level, k + 1);
    }
}

/// The second stage of ordering the operators of a level takes the first
/// `^`, `*` or `/` of that level, multiplications and divisions alike, and
/// takes nothing where the level has none of them.
pub proof fn law_second_stage_takes_first_multiplicative(ops: Seq<SymbolView>, level: int)
    ensures
        (exists|i: int| 0 <= i < ops.len() && #[trigger] multiplicative_at(ops[i], level)) ==> ({
            let taken = pick(ops, level, 1).0;
            &&& taken.len() == 1
            &&& exists|i: int|
                0 <= i < ops.len() && taken[0] == ops[i] && #[trigger] multiplicative_at(ops[i], level)
                    && forall|j: int| 0 <= j < i ==> !multiplicative_at(#[trigger] ops[j], level)
        }),
        (forall|i: int| 0 <= i < ops.len() ==> !#[trigger] multiplicative_at(ops[i], level)) ==> pick(
            ops,
            level,
            1,
        ).0.len() == 0,
{
    lemma_first_multiplicative(ops, level, 0);
    match first_accepted(ops, level, 1, 0) {
        Some(i) => {
            assert(multiplicative_at(ops[i], level));
        },
        None => {},
    }
}

/// Typing a digit, an operator or a parenthesis puts it into the line at the
/// cursor and moves the cursor past it.
pub proof fn law_typing_inserts(text: Seq<char>, cursor: int, c: char)
    requires
        is_digit(c) || c == '+' || c == '-' || c == '*' || c == '/' || c == '^' || c == '(' || c == ')',
    ensures
        after_key(text, cursor, KeyPress::Char(c)) == (
            text.insert(cursor - 1, c),
            cursor + 1,
            crate::line_editor::KeyAction::Redraw,
        ),
{
}

proof fn lemma_right_scan_digit(t: Seq<char>, m: int, j: int, flag: bool)
    requires
        0 <= m <= j < t.len(),
        is_digit(t[j]),
        forall|i: int| m <= i < j ==> t[i] == '(',
    ensures
        crate::text_expression::right_scan(t, m, flag) is Ok,
    decreases j - m,
{
    if m < j {
        lemma_right_scan_digit(t, m + 1, j, true);
    }
}

/// An operator followed by a digit, possibly after opening parentheses, has
/// a right operand.
pub proof fn law_right_operand_after_parentheses(t: Seq<char>, io: int, j: int)
    requires
        0 <= io < j < t.len(),
        is_digit(t[j]),
        forall|i: int| io < i < j ==> t[i] == '(',
    ensures
        crate::text_expression::text_right_check(t, io) is Ok,
{
    lemma_right_scan_digit(t, io + 1, j, false);
}

proof fn lemma_plain_signed(a: Seq<char>)
    requires
        a.len() > 0,
        all_digits(a),
    ensures
        crate::operation::as_i64(a) == (if digits_value(a) <= i64::MAX { Some(digits_value(a) as int) } else {
            None::<int>
        }),
        crate::operation::as_u64(a) == (if digits_value(a) <= u64::MAX { Some(digits_value(a) as int) } else {
            None::<int>
        }),
        !a.contains('.'),
{
    assert(is_digit(a[0]));
    assert(is_digit(a[a.len() - 1]));
    assert(trim_start(a) == a);
    assert(trim_end(a) == a);
    assert(int_literal(a, false) == Some(digits_value(a) as int));
    assert(int_literal(a, true) == Some(digits_value(a) as int));
    if a.contains('.') {
        let i = choose|i: int| 0 <= i < a.len() && a[i] == '.';
        assert(is_digit(a[i]));
    }
}

/// Adding, subtracting or multiplying two natural numbers written in digits
/// gives, whenever it can be worked out, exactly their sum, difference or
/// product, written in decimal (a negative difference in parentheses); a sum
/// or product of numbers that fit in `u64` can always be worked out when it
/// fits in `u64` too.
pub proof fn law_plain_arithmetic(kind: OpKind, a1: ArgumentView, a2: ArgumentView)
    requires
        kind == OpKind::Addition || kind == OpKind::Subtraction || kind == OpKind::Multiplication,
        a1.arg.len() > 0,
        all_digits(a1.arg),
        a2.arg.len() > 0,
        all_digits(a2.arg),
        !a1.negative,
        !a2.negative,
    ensures
        ({
            let x = digits_value(a1.arg) as int;
            let y = digits_value(a2.arg) as int;
            let value = if kind == OpKind::Addition {
                x + y
            } else if kind == OpKind::Subtraction {
                x - y
            } else {
                x * y
            };
            &&& arithmetic(kind, a1, a2) is Some ==> arithmetic(kind, a1, a2) == Some(
                OutcomeView::Exact(wrapped(int_text(value))),
            )
            &&& kind != OpKind::Subtraction && x <= u64::MAX && y <= u64::MAX && value <= u64::MAX
                ==> arithmetic(kind, a1, a2) is Some
        }),
{
    lemma_plain_signed(a1.arg);
    lemma_plain_signed(a2.arg);
    let x = digits_value(a1.arg) as int;
    let y = digits_value(a2.arg) as int;
    assert(x * y >= 0) by (nonlinear_arith)
        requires
            x >= 0,
            y >= 0,
    ;
}

/// The left operand read before an operator takes in every digit, decimal
/// point and sign that comes right before it: its text ends with the
/// characters of that whole run, in order.
pub proof fn law_left_operand_takes_whole_number(v: Seq<SymbolView>, k: int, n: int)
    requires
        0 <= n <= k <= v.len(),
        forall|i: int| k - n <= i < k ==> (#[trigger] v[i] is Digit),
    ensures
        crate::symbols::left_operand(v, k).arg.len() >= n,
        forall|i: int|
            k - n <= i < k ==> #[trigger] v[i] == (SymbolView::Digit {
                chr: crate::symbols::left_operand(v, k).arg[crate::symbols::left_operand(v, k).arg.len() - (k - i)],
            }),
    decreases n,
{
    if n > 0 {
        assert(v[k - 1] is Digit);
        law_left_operand_takes_whole_number(v, k - 1, n - 1);
        let r = crate::symbols::left_operand(v, k - 1);
        let a = crate::symbols::left_operand(v, k).arg;
        assert(a == r.arg.push(v[k - 1]->chr));
        assert forall|i: int| k - n <= i < k implies #[trigger] v[i] == (SymbolView::Digit {
            chr: a[a.len() - (k - i)],
        }) by {
            if i < k - 1 {
                assert(v[i] == SymbolView::Digit { chr: r.arg[r.arg.len() - (k - 1 - i)] });
                assert(a[a.len() - (k - i)] == r.arg[r.arg.len() - (k - 1 - i)]);
            }
        }
    }
}

proof fn lemma_right_collect_digits(t: Seq<char>, k: int, n: int, st: crate::text_expression::ArgScan)
    requires
        0 <= k,
        0 <= n,
        k + n <= t.len(),
        forall|i: int| k <= i < k + n ==> #[trigger] is_digit(t[i]),
    ensures
        crate::text_expression::right_collect(t, k, st).value.len() >= st.value.len() + n,
        forall|i: int|
            0 <= i < n ==> crate::text_expression::right_collect(t, k, st).value[st.value.len() + i]
                == #[trigger] t[k + i],
    decreases n,
{
    lemma_right_collect_keeps(t, k, st);
    if n > 0 {
        assert(is_digit(t[k]));
        let l = st.value.len() as int;
        let next = crate::text_expression::ArgScan { value: st.value.push(t[k]), ..st };
        lemma_right_collect_digits(t, k + 1, n - 1, next);
        lemma_right_collect_keeps(t, k + 1, next);
        let r = crate::text_expression::right_collect(t, k, st).value;
        assert(r == crate::text_expression::right_collect(t, k + 1, next).value);
        assert(r.take(l + 1)[l] == next.value[l]);
        assert forall|i: int| 0 <= i < n implies r[l + i] == #[trigger] t[k + i] by {
            if i > 0 {
                assert(t[(k + 1) + (i - 1)] == t[k + i]);
            }
        }
    }
}

proof fn lemma_right_collect_keeps(t: Seq<char>, k: int, st: crate::text_expression::ArgScan)
    ensures
        crate::text_expression::right_collect(t, k, st).value.len() >= st.value.len(),
        crate::text_expression::right_collect(t, k, st).value.take(st.value.len() as int) == st.value,
    decreases t.len() - k,
{
    if 0 <= k < t.len() {
        let c = t[k];
        let r = crate::text_expression::right_collect(t, k, st).value;
        if is_digit(c) || c == '.' || (c == '-' && st.flag) {
            let next = crate::text_expression::ArgScan { value: st.value.push(c), ..st };
            lemma_right_collect_keeps(t, k + 1, next);
            assert(r.take(st.value.len() as int) =~= st.value) by {
                assert forall|i: int| 0 <= i < st.value.len() implies r[i] == st.value[i] by {
                    assert(r.take(next.value.len() as int)[i] == next.value[i]);
                }
            }
        } else if c == '(' {
            lemma_right_collect_keeps(t, k + 1, crate::text_expression::ArgScan { flag: true, ..st });
        } else if c == ')' && st.flag {
            lemma_right_collect_keeps(t, k + 1, crate::text_expression::ArgScan { flag: false, negative: true, ..st });
        } else {
            assert(r =~= st.value);
        }
    } else {
        assert(crate::text_expression::right_collect(t, k, st).value.take(st.value.len() as int) =~= st.value);
    }
}

/// Reading the operands of the operator at `index` of a text, the right
/// operand takes in every digit that follows the operator: its text begins
/// with that whole run.
pub proof fn law_text_right_operand_takes_digits(t: Seq<char>, index: int, n: int)
    requires
        0 <= index,
        0 <= n,
        index + 1 + n <= t.len(),
        forall|i: int| index < i <= index + n ==> #[trigger] is_digit(t[i]),
    ensures
        crate::text_expression::text_args(t, index).1.arg.len() >= n,
        crate::text_expression::text_args(t, index).1.arg.take(n) == t.subrange(index + 1, index + 1 + n),
{
    let first = crate::text_expression::left_collect(
        t,
        index - 1,
        crate::text_expression::ArgScan { value: Seq::empty(), flag: false, negative: false, next_to: false },
    );
    let st = crate::text_expression::ArgScan { value: Seq::empty(), flag: first.flag, negative: false, next_to: false };
    assert forall|i: int| index + 1 <= i < index + 1 + n implies #[trigger] is_digit(t[i]) by {}
    lemma_right_collect_digits(t, index + 1, n, st);
    let r = crate::text_expression::right_collect(t, index + 1, st).value;
    assert forall|i: int| 0 <= i < n implies r.take(n)[i] == t.subrange(index + 1, index + 1 + n)[i] by {
        assert(r[0 + i] == t[index + 1 + i]);
    }
    assert(r.take(n) =~= t.subrange(index + 1, index + 1 + n));
}

/// Of the other keys: Enter submits the line and `q` or Ctrl-C quits, leaving
/// the line and the cursor as they are; any other character, and any other
/// key but the arrows and backspace, changes nothing.
pub proof fn law_other_keys(text: Seq<char>, cursor: int, c: char)
    ensures
        after_key(text, cursor, KeyPress::Char('\n')) == (text, cursor, crate::line_editor::KeyAction::Submit),
        after_key(text, cursor, KeyPress::Char('q')) == (text, cursor, crate::line_editor::KeyAction::Quit),
        after_key(text, cursor, KeyPress::Ctrl('c')) == (text, cursor, crate::line_editor::KeyAction::Quit),
        !(is_digit(c) || c == '+' || c == '-' || c == '*' || c == '/' || c == '^' || c == '(' || c == ')'
            || c == '\n' || c == 'q') ==> after_key(text, cursor, KeyPress::Char(c)) == (
            text,
            cursor,
            crate::line_editor::KeyAction::Redraw,
        ),
        c != 'c' ==> after_key(text, cursor, KeyPress::Ctrl(c)) == (
            text,
            cursor,
            crate::line_editor::KeyAction::Redraw,
        ),
        after_key(text, cursor, KeyPress::Other) == (text, cursor, crate::line_editor::KeyAction::Redraw),
{
}

/// The text of an integer operand: its digits, after a `-` when negative.
pub open spec fn signed_text(negative: bool, digits: Seq<char>) -> Seq<char> {
    if negative {
        seq!['-'] + digits
    } else {
        digits
    }
}

/// The integer such an operand stands for.
pub open spec fn signed_value(negative: bool, digits: Seq<char>) -> int {
    if negative {
        -(digits_value(digits) as int)
    } else {
        digits_value(digits) as int
    }
}

proof fn lemma_signed_operand(negative: bool, d: Seq<char>)
    requires
        d.len() > 0,
        all_digits(d),
    ensures
        ({
            let a = signed_text(negative, d);
            let v = signed_value(negative, d);
            &&& crate::operation::as_i64(a) == (if i64::MIN <= v <= i64::MAX { Some(v) } else { None::<int> })
            &&& crate::operation::as_u64(a) == (if !negative && v <= u64::MAX { Some(v) } else { None::<int> })
            &&& !a.contains('.')
        }),
{
    let a = signed_text(negative, d);
    assert(is_digit(d[0]));
    assert(is_digit(d[d.len() - 1]));
    assert(a.last() == d.last());
    assert(!is_white_space(a[0]));
    assert(trim_start(a) == a);
    assert(trim_end(a) == a);
    if negative {
        assert(a.drop_first() =~= d);
        assert(!all_digits(a)) by {
            assert(!is_digit(a[0]));
        }
    }
    if a.contains('.') {
        let i = choose|i: int| 0 <= i < a.len() && a[i] == '.';
        if negative && i > 0 {
            assert(a[i] == d[i - 1]);
            assert(is_digit(d[i - 1]));
        } else if !negative {
            assert(is_digit(d[i]));
        }
    }
}

/// Adding, subtracting or multiplying two integers, each written as digits
/// after an optional `-`, gives, whenever it can be worked out, exactly
/// their sum, difference or product, written in decimal with a negative
/// value in parentheses.
pub proof fn law_integer_arithmetic(
    kind: OpKind,
    a1: ArgumentView,
    a2: ArgumentView,
    s1: bool,
    d1: Seq<char>,
    s2: bool,
    d2: Seq<char>,
)
    requires
        kind == OpKind::Addition || kind == OpKind::Subtraction || kind == OpKind::Multiplication,
        d1.len() > 0,
        all_digits(d1),
        d2.len() > 0,
        all_digits(d2),
        a1.arg == signed_text(s1, d1),
        a2.arg == signed_text(s2, d2),
    ensures
        ({
            let x = signed_value(s1, d1);
            let y = signed_value(s2, d2);
            let value = if kind == OpKind::Addition {
                x + y
            } else if kind == OpKind::Subtraction {
                x - y
            } else {
                x * y
            };
            arithmetic(kind, a1, a2) is Some ==> arithmetic(kind, a1, a2) == Some(
                OutcomeView::Exact(wrapped(int_text(value))),
            )
        }),
{
    lemma_signed_operand(s1, d1);
    lemma_signed_operand(s2, d2);
}

proof fn lemma_divisible(x: int, y: int)
    requires
        y != 0,
    ensures
        (vstd::math::abs(x) % vstd::math::abs(y) == 0) <==> (exists|k: int| #[trigger] (k * y) == x),
        (vstd::math::abs(x) % vstd::math::abs(y) == 0) ==> crate::operation::quotient(x, y) * y == x,
{
    let ax = vstd::math::abs(x) as int;
    let ay = vstd::math::abs(y) as int;
    assert(ay > 0);
    if ax % ay == 0 {
        vstd::arithmetic::div_mod::lemma_fundamental_div_mod(ax, ay);
        let q = ax / ay;
        assert(ax == ay * q);
        let k = crate::operation::quotient(x, y);
        assert(k * y == x) by (nonlinear_arith)
            requires
                ax == ay * q,
                ax == (if x < 0 { -x } else { x }),
                ay == (if y < 0 { -y } else { y }),
                k == (if (x < 0) == (y < 0) { q } else { -q }),
        ;
    }
    if exists|k: int| #[trigger] (k * y) == x {
        let k = choose|k: int| #[trigger] (k * y) == x;
        let ak = vstd::math::abs(k) as int;
        assert(ax == ak * ay) by (nonlinear_arith)
            requires
                k * y == x,
                ax == (if x < 0 { -x } else { x }),
                ay == (if y < 0 { -y } else { y }),
                ak == (if k < 0 { -k } else { k }),
        ;
        vstd::arithmetic::div_mod::lemma_mod_multiples_basic(ak, ay);
    }
}

/// Dividing two integers, each written as digits after an optional `-`,
/// gives, whenever it can be worked out, an exact result `q` with
/// `q * y == x` where some integer times `y` is `x`, and otherwise the
/// quotient of the two numbers to be worked out as a float.
pub proof fn law_integer_division(a1: ArgumentView, a2: ArgumentView, s1: bool, d1: Seq<char>, s2: bool, d2: Seq<char>)
    requires
        d1.len() > 0,
        all_digits(d1),
        d2.len() > 0,
        all_digits(d2),
        a1.arg == signed_text(s1, d1),
        a2.arg == signed_text(s2, d2),
    ensures
        ({
            let x = signed_value(s1, d1);
            let y = signed_value(s2, d2);
            let o = arithmetic(OpKind::Division, a1, a2);
            &&& o is Some ==> y != 0
            &&& o is Some && (exists|k: int| #[trigger] (k * y) == x) ==> exists|q: int|
                q * y == x && o == Some(OutcomeView::Exact(wrapped(#[trigger] int_text(q))))
            &&& o is Some && !(exists|k: int| #[trigger] (k * y) == x) ==> o == Some(
                OutcomeView::Float(FloatTaskView::Quotient { numerator: x, denominator: y }),
            )
        }),
{
    lemma_signed_operand(s1, d1);
    lemma_signed_operand(s2, d2);
    let x = signed_value(s1, d1);
    let y = signed_value(s2, d2);
    let o = arithmetic(OpKind::Division, a1, a2);
    if o is Some && y != 0 {
        lemma_divisible(x, y);
        let q = crate::operation::quotient(x, y);
        if !(a1.negative || a2.negative) {
            assert(x >= 0 && y > 0);
            assert(vstd::math::abs(x) == x && vstd::math::abs(y) == y);
            if x % y == 0 {
                assert(x / y == q);
            }
        }
        if vstd::math::abs(x) % vstd::math::abs(y) == 0 {
            assert(q * y == x && o == Some(OutcomeView::Exact(wrapped(int_text(q)))));
        }
    }
}

} // verus!
