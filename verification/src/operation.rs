//! Arithmetic operations of an expression and how one of them is worked out.
use vstd::prelude::*;
use vstd::arithmetic::power::pow;
use vstd::utf8::encode_utf8;
use crate::text::{parse_int, int_text, trim, chars_of, trimmed, parse_chars, int_to_text, push_char};
use crate::my_extension::MyStringExtension;

verus! {

/// The five arithmetic operators.
#[derive(Clone, Copy, PartialEq, Eq, Structural, Debug)]
pub enum OpKind {
    Addition,
    Subtraction,
    Multiplication,
    Division,
    Exponentiation,
}

/// One operand of an operation, as read off the expression.
pub struct Argument {
    /// The characters of the operand (digits, `.`, and `-` for a negative one).
    pub arg: String,
    /// The operand stops at a parenthesis of its own group.
    pub next_to_parenthesis: bool,
    /// The operand is a negative number written as `(-n)`.
    pub negative: bool,
}

/// The model of an [`Argument`].
pub struct ArgumentView {
    pub arg: Seq<char>,
    pub next_to_parenthesis: bool,
    pub negative: bool,
}

impl View for Argument {
    type V = ArgumentView;

    open spec fn view(&self) -> ArgumentView {
        ArgumentView {
            arg: self.arg@,
            next_to_parenthesis: self.next_to_parenthesis,
            negative: self.negative,
        }
    }
}

/// An argument with no text and no flags.
pub open spec fn empty_argument() -> ArgumentView {
    ArgumentView { arg: Seq::empty(), next_to_parenthesis: false, negative: false }
}

impl Argument {
    /// An argument with no text and no flags.
    pub fn new() -> (res: Argument)
        ensures
            res@ == empty_argument(),
    {
        Argument { arg: String::new(), next_to_parenthesis: false, negative: false }
    }

    /// A copy of the argument.
    pub fn duplicate(&self) -> (res: Argument)
        ensures
            res@ == self@,
    {
        Argument {
            arg: self.arg.clone(),
            next_to_parenthesis: self.next_to_parenthesis,
            negative: self.negative,
        }
    }

    /// Two arguments are alike when their texts are.
    pub fn eq(&self, other: &Argument) -> (res: bool)
        ensures
            res == (self@.arg == other@.arg),
    {
        self.arg == other.arg
    }
}

/// An operation of the expression: which operator, where it stands, and its
/// operands; `Zero` when there is none.
pub enum Operation {
    Zero,
    Addition { index: usize, arg1: Argument, arg2: Argument },
    Subtraction { index: usize, arg1: Argument, arg2: Argument },
    Multiplication { index: usize, arg1: Argument, arg2: Argument },
    Division { index: usize, arg1: Argument, arg2: Argument },
    Exponentiation { index: usize, arg1: Argument, arg2: Argument },
}

/// The model of an [`Operation`].
pub enum OperationView {
    Zero,
    Apply { kind: OpKind, index: usize, arg1: ArgumentView, arg2: ArgumentView },
}

impl View for Operation {
    type V = OperationView;

    open spec fn view(&self) -> OperationView {
        match self {
            Operation::Zero => OperationView::Zero,
            Operation::Addition { index, arg1, arg2 } => OperationView::Apply {
                kind: OpKind::Addition,
                index: *index,
                arg1: arg1@,
                arg2: arg2@,
            },
            Operation::Subtraction { index, arg1, arg2 } => OperationView::Apply {
                kind: OpKind::Subtraction,
                index: *index,
                arg1: arg1@,
                arg2: arg2@,
            },
            Operation::Multiplication { index, arg1, arg2 } => OperationView::Apply {
                kind: OpKind::Multiplication,
                index: *index,
                arg1: arg1@,
                arg2: arg2@,
            },
            Operation::Division { index, arg1, arg2 } => OperationView::Apply {
                kind: OpKind::Division,
                index: *index,
                arg1: arg1@,
                arg2: arg2@,
            },
            Operation::Exponentiation { index, arg1, arg2 } => OperationView::Apply {
                kind: OpKind::Exponentiation,
                index: *index,
                arg1: arg1@,
                arg2: arg2@,
            },
        }
    }
}

/// The operator character of a kind.
pub open spec fn kind_char(kind: OpKind) -> char {
    match kind {
        OpKind::Addition => '+',
        OpKind::Subtraction => '-',
        OpKind::Multiplication => '*',
        OpKind::Division => '/',
        OpKind::Exponentiation => '^',
    }
}

/// How strongly an operation binds: none, `+ -`, `* /`, `^`.
pub open spec fn priority_of(op: OperationView) -> int {
    match op {
        OperationView::Zero => 0,
        OperationView::Apply { kind, .. } => match kind {
            OpKind::Addition | OpKind::Subtraction => 1,
            OpKind::Multiplication | OpKind::Division => 2,
            OpKind::Exponentiation => 3,
        },
    }
}

/// Two operations are alike when they have the same operator and operands
/// with the same texts; `Zero` is alike to nothing.
pub open spec fn same_operation(a: OperationView, b: OperationView) -> bool {
    match (a, b) {
        (
            OperationView::Apply { kind: k1, arg1: a1, arg2: b1, .. },
            OperationView::Apply { kind: k2, arg1: a2, arg2: b2, .. },
        ) => k1 == k2 && a1.arg == a2.arg && b1.arg == b2.arg,
        _ => false,
    }
}

/// The operation of `kind` at `index` with the given operands.
pub open spec fn apply_view(
    kind: OpKind,
    index: usize,
    arg1: ArgumentView,
    arg2: ArgumentView,
) -> OperationView {
    OperationView::Apply { kind, index, arg1, arg2 }
}

/// A float computation that this library leaves to its caller: decimal
/// operands parsed as `f64` and combined by the operator (`powf` for `^`),
/// or the quotient of two integers converted to `f64`.
pub enum FloatTask {
    Decimal { kind: OpKind, arg1: String, arg2: String },
    Quotient { numerator: i128, denominator: i128 },
}

/// The model of a [`FloatTask`].
pub enum FloatTaskView {
    Decimal { kind: OpKind, arg1: Seq<char>, arg2: Seq<char> },
    Quotient { numerator: int, denominator: int },
}

impl View for FloatTask {
    type V = FloatTaskView;

    open spec fn view(&self) -> FloatTaskView {
        match self {
            FloatTask::Decimal { kind, arg1, arg2 } => FloatTaskView::Decimal {
                kind: *kind,
                arg1: arg1@,
                arg2: arg2@,
            },
            FloatTask::Quotient { numerator, denominator } => FloatTaskView::Quotient {
                numerator: *numerator as int,
                denominator: *denominator as int,
            },
        }
    }
}

/// The value of an operation: its exact text, or a float computation.
pub enum Outcome {
    Exact(String),
    Float(FloatTask),
}

/// The model of an [`Outcome`].
pub enum OutcomeView {
    Exact(Seq<char>),
    Float(FloatTaskView),
}

impl View for Outcome {
    type V = OutcomeView;

    open spec fn view(&self) -> OutcomeView {
        match self {
            Outcome::Exact(s) => OutcomeView::Exact(s@),
            Outcome::Float(t) => OutcomeView::Float(t@),
        }
    }
}

/// What working out an operation gives: its value, and the range of symbols
/// `range_start..range_stop` that the value replaces.
pub struct Calculation {
    pub outcome: Outcome,
    pub range_start: usize,
    pub range_stop: usize,
}

/// The model of a [`Calculation`].
pub struct CalculationView {
    pub outcome: OutcomeView,
    pub range_start: int,
    pub range_stop: int,
}

impl View for Calculation {
    type V = CalculationView;

    open spec fn view(&self) -> CalculationView {
        CalculationView {
            outcome: self.outcome@,
            range_start: self.range_start as int,
            range_stop: self.range_stop as int,
        }
    }
}

pub open spec fn i64_min() -> int {
    -0x8000_0000_0000_0000
}

pub open spec fn i64_max() -> int {
    0x7fff_ffff_ffff_ffff
}

pub open spec fn u64_max() -> int {
    0xffff_ffff_ffff_ffff
}

pub open spec fn u32_max() -> int {
    0xffff_ffff
}

/// An operand read as an `i64` (after trimming), as `parse::<i64>` does.
pub open spec fn as_i64(a: Seq<char>) -> Option<int> {
    parse_int(trim(a), true, i64_min(), i64_max())
}

/// An operand read as a `u64`.
pub open spec fn as_u64(a: Seq<char>) -> Option<int> {
    parse_int(trim(a), false, 0, u64_max())
}

/// An operand read as a `u32`.
pub open spec fn as_u32(a: Seq<char>) -> Option<int> {
    parse_int(trim(a), false, 0, u32_max())
}

/// `a` comes strictly before `b` in the order of `String`: character by
/// character, a proper prefix first.
pub open spec fn text_less(a: Seq<char>, b: Seq<char>) -> bool
    decreases a.len(),
{
    if a.len() == 0 {
        b.len() > 0
    } else if b.len() == 0 {
        false
    } else if a[0] != b[0] {
        (a[0] as u32) < (b[0] as u32)
    } else {
        text_less(a.drop_first(), b.drop_first())
    }
}

/// A negative text is put in parentheses: `-5` becomes `(-5)`.
pub open spec fn wrapped(t: Seq<char>) -> Seq<char> {
    if t.len() > 0 && t[0] == '-' {
        seq!['('] + t + seq![')']
    } else {
        t
    }
}

/// The exact value `v`, written as the expression writes it.
pub open spec fn exact(v: int) -> OutcomeView {
    OutcomeView::Exact(wrapped(int_text(v)))
}

/// Applies `+`, `-` or `*`.
pub open spec fn combine(kind: OpKind, x: int, y: int) -> int {
    match kind {
        OpKind::Addition => x + y,
        OpKind::Subtraction => x - y,
        _ => x * y,
    }
}

/// Whether `+`, `-` or `*` works in `i64` (rather than `u64`): when an operand
/// is negative, or for `-` when the first operand's text is ordered before
/// the second's.
pub open spec fn signed_arithmetic(kind: OpKind, a1: ArgumentView, a2: ArgumentView) -> bool {
    a1.negative || a2.negative || (kind == OpKind::Subtraction && text_less(a1.arg, a2.arg))
}

/// Integer division rounding toward zero, as Rust's `/` does.
pub open spec fn quotient(x: int, y: int) -> int {
    let q = (vstd::math::abs(x) / vstd::math::abs(y)) as int;
    if (x < 0) == (y < 0) {
        q
    } else {
        -q
    }
}

/// `y` divides `x`.
pub open spec fn divides(x: int, y: int) -> bool {
    vstd::math::abs(x) % vstd::math::abs(y) == 0
}

/// The value of an operation on two operands, or `None` where working it out
/// fails (an operand does not read as the integer type in use, the result
/// overflows that type, or a division is by zero).
pub open spec fn arithmetic(kind: OpKind, a1: ArgumentView, a2: ArgumentView) -> Option<OutcomeView> {
    if a1.arg.contains('.') || a2.arg.contains('.') {
        Some(OutcomeView::Float(FloatTaskView::Decimal { kind, arg1: a1.arg, arg2: a2.arg }))
    } else {
        match kind {
            OpKind::Exponentiation => if a2.negative {
                Some(OutcomeView::Float(FloatTaskView::Decimal { kind, arg1: a1.arg, arg2: a2.arg }))
            } else {
                match (as_i64(a1.arg), as_u32(a2.arg)) {
                    (Some(x), Some(y)) => {
                        let p = pow(x, y as nat);
                        if i64_min() <= p <= i64_max() {
                            Some(exact(p))
                        } else {
                            None
                        }
                    },
                    _ => None,
                }
            },
            OpKind::Division => if a1.negative || a2.negative {
                match (as_i64(a1.arg), as_i64(a2.arg)) {
                    (Some(x), Some(y)) => if y == 0 || (x == i64_min() && y == -1) {
                        None
                    } else if divides(x, y) {
                        Some(exact(quotient(x, y)))
                    } else {
                        Some(OutcomeView::Float(FloatTaskView::Quotient { numerator: x, denominator: y }))
                    },
                    _ => None,
                }
            } else {
                match (as_u64(a1.arg), as_u64(a2.arg)) {
                    (Some(x), Some(y)) => if y == 0 {
                        None
                    } else if x % y == 0 {
                        Some(exact(x / y))
                    } else {
                        Some(OutcomeView::Float(FloatTaskView::Quotient { numerator: x, denominator: y }))
                    },
                    _ => None,
                }
            },
            _ => if signed_arithmetic(kind, a1, a2) {
                match (as_i64(a1.arg), as_i64(a2.arg)) {
                    (Some(x), Some(y)) => if i64_min() <= combine(kind, x, y) <= i64_max() {
                        Some(exact(combine(kind, x, y)))
                    } else {
                        None
                    },
                    _ => None,
                }
            } else {
                match (as_u64(a1.arg), as_u64(a2.arg)) {
                    (Some(x), Some(y)) => if 0 <= combine(kind, x, y) <= u64_max() {
                        Some(exact(combine(kind, x, y)))
                    } else {
                        None
                    },
                    _ => None,
                }
            },
        }
    }
}

/// The number of bytes of a text in UTF-8, what `String::len` counts.
pub open spec fn byte_len(s: Seq<char>) -> int {
    (encode_utf8(s).len() as usize) as int
}

/// The symbols that the result of the operation at `index` replaces: its
/// operands, the parentheses around them when both touch one, and the
/// parentheses of negative operands; `None` where the range leaves `usize`.
pub open spec fn replaced_range(index: usize, a1: ArgumentView, a2: ArgumentView) -> Option<(int, int)> {
    let both = a1.next_to_parenthesis && a2.next_to_parenthesis;
    let start = index - byte_len(a1.arg) - (if both { 1int } else { 0 }) - (if a1.negative { 2int } else { 0 });
    let stop = index + byte_len(a2.arg) + 1 + (if both { 1int } else { 0 }) + (if a2.negative { 2int } else { 0 });
    if 0 <= start && stop <= usize::MAX {
        Some((start, stop))
    } else {
        None
    }
}

/// What working out an operation gives, or `None` where it fails.
pub open spec fn calculation_of(op: OperationView) -> Option<CalculationView> {
    match op {
        OperationView::Zero => Some(
            CalculationView { outcome: OutcomeView::Exact("lol"@), range_start: 1, range_stop: 1 },
        ),
        OperationView::Apply { kind, index, arg1, arg2 } => match (
            arithmetic(kind, arg1, arg2),
            replaced_range(index, arg1, arg2),
        ) {
            (Some(outcome), Some((start, stop))) => Some(
                CalculationView { outcome, range_start: start, range_stop: stop },
            ),
            _ => None,
        },
    }
}



/// The name of an operation's kind: `Addition`, `Subtraction`,
/// `Multiplication`, `Division` or `Exponentiation`; `Zero` for none.
pub open spec fn operation_name(op: OperationView) -> Seq<char> {
    match op {
        OperationView::Zero => "Zero"@,
        OperationView::Apply { kind, .. } => match kind {
            OpKind::Addition => "Addition"@,
            OpKind::Subtraction => "Subtraction"@,
            OpKind::Multiplication => "Multiplication"@,
            OpKind::Division => "Division"@,
            OpKind::Exponentiation => "Exponentiation"@,
        },
    }
}

/// The operation with its index replaced, as `Operation::change_index` leaves it.
pub open spec fn with_index(op: OperationView, index: usize) -> OperationView {
    match op {
        OperationView::Zero => OperationView::Zero,
        OperationView::Apply { kind, arg1, arg2, .. } => OperationView::Apply { kind, index, arg1, arg2 },
    }
}

/// Whether `a` comes strictly before `b` in the order of `String`.
pub fn less_text(a: &String, b: &String) -> (r: bool)
    ensures
        r == text_less(a@, b@),
{
    let x = chars_of(a);
    let y = chars_of(b);
    let mut i: usize = 0;
    assert(a@.skip(0) == a@);
    assert(b@.skip(0) == b@);
    while i < x.len() && i < y.len() && x[i] == y[i]
        invariant
            x@ == a@,
            y@ == b@,
            i <= x@.len(),
            i <= y@.len(),
            text_less(a@, b@) == text_less(a@.skip(i as int), b@.skip(i as int)),
        decreases x.len() - i,
    {
        assert(a@.skip(i as int).drop_first() == a@.skip(i + 1));
        assert(b@.skip(i as int).drop_first() == b@.skip(i + 1));
        i = i + 1;
    }
    if i == x.len() {
        i < y.len()
    } else if i == y.len() {
        false
    } else {
        assert(a@.skip(i as int)[0] == x@[i as int]);
        assert(b@.skip(i as int)[0] == y@[i as int]);
        (x[i] as u32) < (y[i] as u32)
    }
}

/// Reads an operand (trimmed) as an integer of the type whose values are
/// `lo..=hi`.
fn read_operand(a: &String, signed: bool, lo: i128, hi: i128) -> (r: Option<i128>)
    requires
        -0x1_0000_0000_0000_0000 <= lo <= hi <= 0x1_0000_0000_0000_0000,
    ensures
        match r {
            Some(v) => parse_int(trim(a@), signed, lo as int, hi as int) == Some(v as int),
            None => parse_int(trim(a@), signed, lo as int, hi as int) is None,
        },
{
    let chars = chars_of(a);
    let t = trimmed(&chars);
    parse_chars(&t, signed, lo, hi)
}

/// Puts a text that starts with `-` in parentheses, as the result of an
/// operation is written back into the expression.
pub fn wrap_negative(result: String) -> (res: String)
    requires
        result@.len() > 0,
        (result@[0] as u32) < 128,
    ensures
        res@ == wrapped(result@),
{
    let chars = chars_of(&result);
    if chars[0] == '-' {
        let mut res = String::new();
        push_char(&mut res, '(');
        res.append(result.as_str());
        push_char(&mut res, ')');
        assert(res@ =~= seq!['('] + result@ + seq![')']);
        res
    } else {
        result
    }
}

/// The exact value `v` as text, negative values in parentheses.
fn exact_text(v: i128) -> (res: String)
    requires
        -0x1_0000_0000_0000_0000 <= v <= 0x1_0000_0000_0000_0000,
    ensures
        res@ == wrapped(int_text(v as int)),
{
    let t = int_to_text(v);
    proof {
        crate::text::lemma_int_text_start(v as int);
    }
    wrap_negative(t)
}

proof fn lemma_pow_step(x: int, k: nat)
    ensures
        pow(x, k + 1) == pow(x, k) * x,
{
    reveal(pow);
    assert(pow(x, k + 1) == x * pow(x, k));
    assert(x * pow(x, k) == pow(x, k) * x) by (nonlinear_arith);
}

proof fn lemma_pow_grows(x: int, k: nat, m: nat)
    requires
        x >= 2 || x <= -2,
        k <= m,
    ensures
        vstd::math::abs(pow(x, m)) >= vstd::math::abs(pow(x, k)),
    decreases m - k,
{
    if k < m {
        lemma_pow_grows(x, k, (m - 1) as nat);
        lemma_pow_step(x, (m - 1) as nat);
        let p = pow(x, (m - 1) as nat);
        assert(vstd::math::abs(p * x) >= vstd::math::abs(p)) by (nonlinear_arith)
            requires
                x >= 2 || x <= -2,
        ;
    }
}

proof fn lemma_pow_small(x: int, n: nat)
    requires
        -1 <= x <= 1,
    ensures
        x == 0 ==> pow(x, n) == (if n == 0 { 1int } else { 0 }),
        x == 1 ==> pow(x, n) == 1,
        x == -1 ==> pow(x, n) == (if n % 2 == 0 { 1int } else { -1 }),
    decreases n,
{
    reveal(pow);
    if n > 0 {
        lemma_pow_small(x, (n - 1) as nat);
    }
}

/// `x` to the power `y` when it fits in `i64`, as `i64::pow` computes it.
fn power(x: i128, y: i128) -> (r: Option<i128>)
    requires
        i64_min() <= x <= i64_max(),
        0 <= y <= u32_max(),
    ensures
        match r {
            Some(v) => v == pow(x as int, y as nat) && i64_min() <= v <= i64_max(),
            None => !(i64_min() <= pow(x as int, y as nat) <= i64_max()),
        },
{
    if x == 0 || x == 1 || x == -1 {
        proof {
            lemma_pow_small(x as int, y as nat);
        }
        if x == 0 {
            if y == 0 {
                return Some(1);
            } else {
                return Some(0);
            }
        } else if x == 1 {
            return Some(1);
        } else if y % 2 == 0 {
            return Some(1);
        } else {
            return Some(-1);
        }
    }
    let mut acc: i128 = 1;
    let mut k: i128 = 0;
    proof {
        reveal(pow);
        assert(pow(x as int, 0) == 1);
    }
    while k < y
        invariant
            i64_min() <= x <= i64_max(),
            x >= 2 || x <= -2,
            0 <= k <= y <= u32_max(),
            acc == pow(x as int, k as nat),
            i64_min() <= acc <= i64_max(),
        decreases y - k,
    {
        proof {
            lemma_pow_step(x as int, k as nat);
        }
        assert(acc * x <= 0x8000_0000_0000_0000 * 0x8000_0000_0000_0000) by (nonlinear_arith)
            requires
                i64_min() <= x <= i64_max(),
                i64_min() <= acc <= i64_max(),
        ;
        assert(acc * x >= -0x8000_0000_0000_0000 * 0x8000_0000_0000_0000) by (nonlinear_arith)
            requires
                i64_min() <= x <= i64_max(),
                i64_min() <= acc <= i64_max(),
        ;
        let next = acc * x;
        if next < -0x8000_0000_0000_0000 || next > 0x7fff_ffff_ffff_ffff {
            proof {
                if k + 1 < y {
                    lemma_pow_step(x as int, (k + 1) as nat);
                    lemma_pow_grows(x as int, (k + 2) as nat, y as nat);
                    let q = pow(x as int, (k + 1) as nat);
                    assert(vstd::math::abs(q * x) >= 2 * 0x8000_0000_0000_0000) by (nonlinear_arith)
                        requires
                            x >= 2 || x <= -2,
                            q < -0x8000_0000_0000_0000 || q > 0x7fff_ffff_ffff_ffff,
                    ;
                }
            }
            return None;
        }
        acc = next;
        k = k + 1;
    }
    Some(acc)
}


const I64_MIN: i128 = -0x8000_0000_0000_0000i128;
const I64_MAX: i128 = 0x7fff_ffff_ffff_ffffi128;
const U64_MAX: i128 = 0xffff_ffff_ffff_ffffi128;
const U32_MAX: i128 = 0xffff_ffffi128;

/// The value of the operation `kind` on two operands, or `None` where
/// working it out fails.
fn arithmetic_of(kind: OpKind, a1: &Argument, a2: &Argument) -> (r: Option<Outcome>)
    ensures
        match r {
            Some(o) => arithmetic(kind, a1@, a2@) == Some(o@),
            None => arithmetic(kind, a1@, a2@) is None,
        },
{
    if a1.arg.is_float() || a2.arg.is_float() {
        return Some(
            Outcome::Float(
                FloatTask::Decimal { kind, arg1: a1.arg.clone(), arg2: a2.arg.clone() },
            ),
        );
    }
    match kind {
        OpKind::Exponentiation => {
            if a2.negative {
                return Some(
                    Outcome::Float(
                        FloatTask::Decimal { kind, arg1: a1.arg.clone(), arg2: a2.arg.clone() },
                    ),
                );
            }
            let x = read_operand(&a1.arg, true, I64_MIN, I64_MAX);
            let y = read_operand(&a2.arg, false, 0, U32_MAX);
            match (x, y) {
                (Some(x), Some(y)) => match power(x, y) {
                    Some(p) => Some(Outcome::Exact(exact_text(p))),
                    None => None,
                },
                _ => None,
            }
        },
        OpKind::Division => {
            if a1.negative || a2.negative {
                let x = read_operand(&a1.arg, true, I64_MIN, I64_MAX);
                let y = read_operand(&a2.arg, true, I64_MIN, I64_MAX);
                match (x, y) {
                    (Some(x), Some(y)) => {
                        if y == 0 || (x == I64_MIN && y == -1) {
                            return None;
                        }
                        let ax: i128 = if x < 0 { -x } else { x };
                        let ay: i128 = if y < 0 { -y } else { y };
                        if ax % ay == 0 {
                            let q = ax / ay;
                            let v = if (x < 0) == (y < 0) { q } else { -q };
                            assert(v == quotient(x as int, y as int));
                            Some(Outcome::Exact(exact_text(v)))
                        } else {
                            Some(Outcome::Float(FloatTask::Quotient { numerator: x, denominator: y }))
                        }
                    },
                    _ => None,
                }
            } else {
                let x = read_operand(&a1.arg, false, 0, U64_MAX);
                let y = read_operand(&a2.arg, false, 0, U64_MAX);
                match (x, y) {
                    (Some(x), Some(y)) => {
                        if y == 0 {
                            return None;
                        }
                        if x % y == 0 {
                            Some(Outcome::Exact(exact_text(x / y)))
                        } else {
                            Some(Outcome::Float(FloatTask::Quotient { numerator: x, denominator: y }))
                        }
                    },
                    _ => None,
                }
            }
        },
        _ => {
            let signed = a1.negative || a2.negative || (kind == OpKind::Subtraction && less_text(
                &a1.arg,
                &a2.arg,
            ));
            let (lo, hi) = if signed {
                (I64_MIN, I64_MAX)
            } else {
                (0i128, U64_MAX)
            };
            let x = read_operand(&a1.arg, signed, lo, hi);
            let y = read_operand(&a2.arg, signed, lo, hi);
            match (x, y) {
                (Some(x), Some(y)) => {
                    let v: i128 = match kind {
                        OpKind::Addition => x + y,
                        OpKind::Subtraction => x - y,
                        _ => {
                            if signed {
                                assert(x * y <= 0x8000_0000_0000_0000 * 0x8000_0000_0000_0000)
                                    by (nonlinear_arith)
                                    requires
                                        -0x8000_0000_0000_0000 <= x <= 0x7fff_ffff_ffff_ffff,
                                        -0x8000_0000_0000_0000 <= y <= 0x7fff_ffff_ffff_ffff,
                                ;
                                assert(x * y >= -0x8000_0000_0000_0000 * 0x8000_0000_0000_0000)
                                    by (nonlinear_arith)
                                    requires
                                        -0x8000_0000_0000_0000 <= x <= 0x7fff_ffff_ffff_ffff,
                                        -0x8000_0000_0000_0000 <= y <= 0x7fff_ffff_ffff_ffff,
                                ;
                                x * y
                            } else {
                                if y != 0 && x > U64_MAX / y {
                                    assert(x * y > 0xffff_ffff_ffff_ffff) by (nonlinear_arith)
                                        requires
                                            0 < y,
                                            x > 0xffff_ffff_ffff_ffffi128 / y,
                                    ;
                                    return None;
                                }
                                assert(x * y <= 0xffff_ffff_ffff_ffff) by (nonlinear_arith)
                                    requires
                                        0 <= x,
                                        0 <= y,
                                        y == 0 || x <= 0xffff_ffff_ffff_ffffi128 / y,
                                ;
                                x * y
                            }
                        },
                    };
                    assert(v == combine(kind, x as int, y as int));
                    if lo <= v && v <= hi {
                        Some(Outcome::Exact(exact_text(v)))
                    } else {
                        None
                    }
                },
                _ => None,
            }
        },
    }
}

/// The symbols that the result of the operation at `index` replaces, or
/// `None` where the range leaves `usize`.
fn range_of(index: usize, a1: &Argument, a2: &Argument) -> (r: Option<(usize, usize)>)
    ensures
        match r {
            Some((start, stop)) => replaced_range(index, a1@, a2@) == Some(
                (start as int, stop as int),
            ),
            None => replaced_range(index, a1@, a2@) is None,
        },
{
    let len1 = a1.arg.as_str().len() as u128;
    let len2 = a2.arg.as_str().len() as u128;
    let both = a1.next_to_parenthesis && a2.next_to_parenthesis;
    let less: u128 = len1 + (if both { 1u128 } else { 0 }) + (if a1.negative { 2u128 } else { 0 });
    let more: u128 = len2 + 1 + (if both { 1u128 } else { 0 }) + (if a2.negative { 2u128 } else { 0 });
    if less > index as u128 || index as u128 + more > usize::MAX as u128 {
        return None;
    }
    Some(((index as u128 - less) as usize, (index as u128 + more) as usize))
}

impl Operation {
    /// The name of the operation's kind.
    pub fn to_string(&self) -> (r: String)
        ensures
            r@ == operation_name(self@),
    {
        match self {
            Operation::Zero => String::from_str("Zero"),
            Operation::Addition { .. } => String::from_str("Addition"),
            Operation::Subtraction { .. } => String::from_str("Subtraction"),
            Operation::Multiplication { .. } => String::from_str("Multiplication"),
            Operation::Division { .. } => String::from_str("Division"),
            Operation::Exponentiation { .. } => String::from_str("Exponentiation"),
        }
    }

    /// How strongly the operation binds: none, `+ -`, `* /`, `^`.
    pub fn priority(&self) -> (r: u8)
        ensures
            r as int == priority_of(self@),
    {
        match self {
            Operation::Zero => 0,
            Operation::Addition { .. } | Operation::Subtraction { .. } => 1,
            Operation::Multiplication { .. } | Operation::Division { .. } => 2,
            Operation::Exponentiation { .. } => 3,
        }
    }

    /// Two operations are alike when they have the same operator and operands
    /// with the same texts.
    pub fn eq(&self, other: &Operation) -> (r: bool)
        ensures
            r == same_operation(self@, other@),
    {
        match (self, other) {
            (
                Operation::Addition { arg1: a1, arg2: b1, .. },
                Operation::Addition { arg1: a2, arg2: b2, .. },
            )
            | (
                Operation::Subtraction { arg1: a1, arg2: b1, .. },
                Operation::Subtraction { arg1: a2, arg2: b2, .. },
            )
            | (
                Operation::Multiplication { arg1: a1, arg2: b1, .. },
                Operation::Multiplication { arg1: a2, arg2: b2, .. },
            )
            | (
                Operation::Division { arg1: a1, arg2: b1, .. },
                Operation::Division { arg1: a2, arg2: b2, .. },
            )
            | (
                Operation::Exponentiation { arg1: a1, arg2: b1, .. },
                Operation::Exponentiation { arg1: a2, arg2: b2, .. },
            ) => a1.eq(a2) && b1.eq(b2),
            _ => false,
        }
    }

    /// A copy of the operation.
    pub fn duplicate(&self) -> (r: Operation)
        ensures
            r@ == self@,
    {
        match self {
            Operation::Zero => Operation::Zero,
            Operation::Addition { index, arg1, arg2 } => Operation::Addition {
                index: *index,
                arg1: arg1.duplicate(),
                arg2: arg2.duplicate(),
            },
            Operation::Subtraction { index, arg1, arg2 } => Operation::Subtraction {
                index: *index,
                arg1: arg1.duplicate(),
                arg2: arg2.duplicate(),
            },
            Operation::Multiplication { index, arg1, arg2 } => Operation::Multiplication {
                index: *index,
                arg1: arg1.duplicate(),
                arg2: arg2.duplicate(),
            },
            Operation::Division { index, arg1, arg2 } => Operation::Division {
                index: *index,
                arg1: arg1.duplicate(),
                arg2: arg2.duplicate(),
            },
            Operation::Exponentiation { index, arg1, arg2 } => Operation::Exponentiation {
                index: *index,
                arg1: arg1.duplicate(),
                arg2: arg2.duplicate(),
            },
        }
    }

    /// Sets the index of the operator within the expression.
    pub fn change_index(&mut self, index_operator: usize)
        ensures
            final(self)@ == with_index(old(self)@, index_operator),
    {
        match self {
            Operation::Addition { index, .. } => {
                *index = index_operator;
            },
            Operation::Subtraction { index, .. } => {
                *index = index_operator;
            },
            Operation::Multiplication { index, .. } => {
                *index = index_operator;
            },
            Operation::Division { index, .. } => {
                *index = index_operator;
            },
            Operation::Exponentiation { index, .. } => {
                *index = index_operator;
            },
            Operation::Zero => {},
        }
    }

    /// The operator and operands, when there is an operation.
    fn parts(&self) -> (r: Option<(OpKind, usize, &Argument, &Argument)>)
        ensures
            match r {
                Some((kind, index, arg1, arg2)) => self@ == apply_view(kind, index, arg1@, arg2@),
                None => self@ == OperationView::Zero,
            },
    {
        match self {
            Operation::Zero => None,
            Operation::Addition { index, arg1, arg2 } => Some((OpKind::Addition, *index, arg1, arg2)),
            Operation::Subtraction { index, arg1, arg2 } => Some(
                (OpKind::Subtraction, *index, arg1, arg2),
            ),
            Operation::Multiplication { index, arg1, arg2 } => Some(
                (OpKind::Multiplication, *index, arg1, arg2),
            ),
            Operation::Division { index, arg1, arg2 } => Some((OpKind::Division, *index, arg1, arg2)),
            Operation::Exponentiation { index, arg1, arg2 } => Some(
                (OpKind::Exponentiation, *index, arg1, arg2),
            ),
        }
    }

    /// Works the operation out, or `None` where that fails.
    fn work_out(&self) -> (r: Option<Calculation>)
        ensures
            match r {
                Some(c) => calculation_of(self@) == Some(c@),
                None => calculation_of(self@) is None,
            },
    {
        match self.parts() {
            None => Some(
                Calculation {
                    outcome: Outcome::Exact(String::from_str("lol")),
                    range_start: 1,
                    range_stop: 1,
                },
            ),
            Some((kind, index, arg1, arg2)) => {
                let outcome = arithmetic_of(kind, arg1, arg2);
                let range = range_of(index, arg1, arg2);
                match (outcome, range) {
                    (Some(outcome), Some((range_start, range_stop))) => Some(
                        Calculation { outcome, range_start, range_stop },
                    ),
                    _ => None,
                }
            },
        }
    }

    /// Whether the operation can be worked out: its operands read as the
    /// integers in use, the result fits, no division is by zero, and the
    /// range it replaces stays within `usize`.
    pub fn calculable(&self) -> (r: bool)
        ensures
            r == calculation_of(self@) is Some,
    {
        self.work_out().is_some()
    }

    /// Works the operation out: its value, exact or as a float computation
    /// for the caller, and the range of symbols it replaces.
    pub fn calculate(&self) -> (r: Calculation)
        requires
            calculation_of(self@) is Some,
        ensures
            calculation_of(self@) == Some(r@),
    {
        match self.work_out() {
            Some(c) => c,
            None => Calculation {
                outcome: Outcome::Exact(String::new()),
                range_start: 0,
                range_stop: 0,
            },
        }
    }
}

} // verus!
