//! Character-level helpers: decimal digits, white space, trimming,
//! decimal formatting and parsing of integers, and building strings.
use vstd::prelude::*;

verus! {

/// A decimal digit `0`..=`9`.
pub open spec fn is_digit(c: char) -> bool {
    '0' <= c && c <= '9'
}

/// The value of a decimal digit.
pub open spec fn digit_value(c: char) -> nat {
    (c as int - '0' as int) as nat
}

/// The digit character that stands for `d` (`d < 10`).
pub open spec fn digit_char(d: nat) -> char {
    (d + '0' as nat) as char
}

/// Every character of the text is ASCII, so that a character's place is also
/// its byte offset.
pub open spec fn ascii_text(text: Seq<char>) -> bool {
    forall|i: int| 0 <= i < text.len() ==> (#[trigger] text[i] as u32) < 128
}

/// Every character of `s` is a decimal digit.
pub open spec fn all_digits(s: Seq<char>) -> bool {
    forall|i: int| 0 <= i < s.len() ==> #[trigger] is_digit(s[i])
}

/// The value of a string of decimal digits, most significant first.
pub open spec fn digits_value(s: Seq<char>) -> nat
    decreases s.len(),
{
    if s.len() == 0 {
        0
    } else {
        digits_value(s.drop_last()) * 10 + digit_value(s.last())
    }
}

/// The decimal text of a natural number, without leading zeros.
pub open spec fn decimal(n: nat) -> Seq<char>
    decreases n,
{
    if n < 10 {
        seq![digit_char(n)]
    } else {
        decimal(n / 10).push(digit_char(n % 10))
    }
}

/// The decimal text of an integer, with a leading `-` when it is negative.
pub open spec fn int_text(i: int) -> Seq<char> {
    if i < 0 {
        seq!['-'] + decimal((-i) as nat)
    } else {
        decimal(i as nat)
    }
}

/// The integer that a string denotes under the grammar of Rust's integer
/// `FromStr`: an optional `+` (or `-`, for a signed type) and then at least
/// one decimal digit; `None` for any other string. The range of the target
/// type is not taken into account here.
pub open spec fn int_literal(s: Seq<char>, signed: bool) -> Option<int> {
    let negative = signed && s.len() > 0 && s[0] == '-';
    let digits = if s.len() > 0 && (s[0] == '+' || negative) {
        s.drop_first()
    } else {
        s
    };
    if digits.len() == 0 || !all_digits(digits) {
        None
    } else if negative {
        Some(-(digits_value(digits) as int))
    } else {
        Some(digits_value(digits) as int)
    }
}

/// What Rust's integer `FromStr` gives for a target type whose values are
/// `lo..=hi`: the denoted integer, or `None` where the text is malformed or
/// the value does not fit.
pub open spec fn parse_int(s: Seq<char>, signed: bool, lo: int, hi: int) -> Option<int> {
    match int_literal(s, signed) {
        Some(v) => if lo <= v <= hi { Some(v) } else { None },
        None => None,
    }
}

/// The characters that carry Unicode's `White_Space` property, the set that
/// `char::is_whitespace` and `str::trim` use.
pub open spec fn is_white_space(c: char) -> bool {
    let u = c as u32;
    ||| 0x9 <= u <= 0xd
    ||| u == 0x20
    ||| u == 0x85
    ||| u == 0xa0
    ||| u == 0x1680
    ||| 0x2000 <= u <= 0x200a
    ||| u == 0x2028
    ||| u == 0x2029
    ||| u == 0x202f
    ||| u == 0x205f
    ||| u == 0x3000
}

/// `s` without its leading white space.
pub open spec fn trim_start(s: Seq<char>) -> Seq<char>
    decreases s.len(),
{
    if s.len() > 0 && is_white_space(s[0]) {
        trim_start(s.drop_first())
    } else {
        s
    }
}

/// `s` without its trailing white space.
pub open spec fn trim_end(s: Seq<char>) -> Seq<char>
    decreases s.len(),
{
    if s.len() > 0 && is_white_space(s.last()) {
        trim_end(s.drop_last())
    } else {
        s
    }
}

/// `s` without leading and trailing white space, as `str::trim` gives it.
pub open spec fn trim(s: Seq<char>) -> Seq<char> {
    trim_end(trim_start(s))
}

/// Whether `c` has the `White_Space` property.
pub fn white_space(c: char) -> (r: bool)
    ensures
        r == is_white_space(c),
{
    let u = c as u32;
    (0x9 <= u && u <= 0xd) || u == 0x20 || u == 0x85 || u == 0xa0 || u == 0x1680 || (0x2000 <= u
        && u <= 0x200a) || u == 0x2028 || u == 0x2029 || u == 0x202f || u == 0x205f || u == 0x3000
}

/// Collects the characters of a string, in order.
pub fn chars_of(s: &String) -> (res: Vec<char>)
    ensures
        res@ == s@,
{
    let mut res: Vec<char> = Vec::new();
    for c in it: s.as_str().chars()
        invariant
            res@ == it.seq().take(it.index() as int),
            it.seq() == s@,
    {
        res.push(c);
    }
    res
}

/// Appends one character to a string by calling std's `String::push`; its
/// contract, taken on trust, is that the string then holds its old characters
/// followed by `c`.
#[verifier::external_body]
pub(crate) fn push_char(s: &mut String, c: char)
    ensures
        final(s)@ == old(s)@.push(c),
{
    s.push(c)
}

/// Builds a string holding the given characters, in order.
pub fn string_of(chars: &Vec<char>) -> (res: String)
    ensures
        res@ == chars@,
{
    let mut res = String::new();
    for i in 0..chars.len()
        invariant
            res@ == chars@.take(i as int),
    {
        push_char(&mut res, chars[i]);
        assert(chars@.take(i + 1) == chars@.take(i as int).push(chars@[i as int]));
    }
    assert(chars@.take(chars.len() as int) == chars@);
    res
}

/// `s` with leading and trailing white space removed: `str::trim`.
pub fn trimmed(s: &Vec<char>) -> (res: Vec<char>)
    ensures
        res@ == trim(s@),
{
    let n = s.len();
    let mut start: usize = 0;
    assert(s@.subrange(0, n as int) == s@);
    while start < n && white_space(s[start])
        invariant
            start <= n == s@.len(),
            trim_start(s@) == trim_start(s@.subrange(start as int, n as int)),
        decreases n - start,
    {
        assert(s@.subrange(start as int, n as int).drop_first() == s@.subrange(
            start + 1,
            n as int,
        ));
        start = start + 1;
    }
    assert(trim_start(s@.subrange(start as int, n as int)) == s@.subrange(start as int, n as int));
    let mut end: usize = n;
    while end > start && white_space(s[end - 1])
        invariant
            start <= end <= n == s@.len(),
            trim(s@) == trim_end(s@.subrange(start as int, end as int)),
        decreases end,
    {
        assert(s@.subrange(start as int, end as int).drop_last() == s@.subrange(
            start as int,
            end - 1,
        ));
        end = end - 1;
    }
    let mut res: Vec<char> = Vec::new();
    for i in start..end
        invariant
            start <= end <= n == s@.len(),
            res@ == s@.subrange(start as int, i as int),
    {
        res.push(s[i]);
        assert(s@.subrange(start as int, i + 1) == s@.subrange(start as int, i as int).push(
            s@[i as int],
        ));
    }
    res
}


/// The digit character for `d`, which is below ten.
pub fn digit_for(d: u128) -> (c: char)
    requires
        d < 10,
    ensures
        c == digit_char(d as nat),
{
    ((d as u8) + 48u8) as char
}

/// Appends the decimal text of `n` to `s`.
pub fn push_decimal(s: &mut String, n: u128)
    ensures
        final(s)@ == old(s)@ + decimal(n as nat),
    decreases n,
{
    if n >= 10 {
        push_decimal(s, n / 10);
    }
    push_char(s, digit_for(n % 10));
    proof {
        if n >= 10 {
            assert(decimal(n as nat) == decimal((n / 10) as nat).push(digit_char((n % 10) as nat)));
        } else {
            assert(decimal(n as nat) == seq![digit_char(n as nat)]);
        }
    }
}

/// The decimal text of an integer, as Rust's `to_string` writes it.
pub fn int_to_text(v: i128) -> (res: String)
    requires
        v > i128::MIN,
    ensures
        res@ == int_text(v as int),
{
    let mut res = String::new();
    if v < 0 {
        push_char(&mut res, '-');
        push_decimal(&mut res, (-v) as u128);
    } else {
        push_decimal(&mut res, v as u128);
    }
    res
}

/// The decimal text of an index.
pub fn index_text(v: usize) -> (res: String)
    ensures
        res@ == decimal(v as nat),
{
    let mut res = String::new();
    push_decimal(&mut res, v as u128);
    res
}

proof fn lemma_digits_value_push(p: Seq<char>, c: char)
    ensures
        digits_value(p.push(c)) == digits_value(p) * 10 + digit_value(c),
{
    assert(p.push(c).drop_last() == p);
}

/// Bound above which a run of digits is too large for any target type.
pub const BIG: u128 = 0x4_0000_0000_0000_0000u128;

/// Reads an integer the way Rust's integer `FromStr` does, for a target type
/// whose values are `lo..=hi`.
pub fn parse_integer(s: &String, signed: bool, lo: i128, hi: i128) -> (r: Option<i128>)
    requires
        -0x1_0000_0000_0000_0000 <= lo <= hi <= 0x1_0000_0000_0000_0000,
    ensures
        match r {
            Some(v) => parse_int(s@, signed, lo as int, hi as int) == Some(v as int),
            None => parse_int(s@, signed, lo as int, hi as int) is None,
        },
{
    let chars = chars_of(s);
    parse_chars(&chars, signed, lo, hi)
}

/// Reads an integer from its characters the way Rust's integer `FromStr`
/// does, for a target type whose values are `lo..=hi`.
pub fn parse_chars(chars: &Vec<char>, signed: bool, lo: i128, hi: i128) -> (r: Option<i128>)
    requires
        -0x1_0000_0000_0000_0000 <= lo <= hi <= 0x1_0000_0000_0000_0000,
    ensures
        match r {
            Some(v) => parse_int(chars@, signed, lo as int, hi as int) == Some(v as int),
            None => parse_int(chars@, signed, lo as int, hi as int) is None,
        },
{
    let ghost s = chars@;
    let n = chars.len();
    let negative = signed && n > 0 && chars[0] == '-';
    let first: usize = if n > 0 && (chars[0] == '+' || negative) {
        1
    } else {
        0
    };
    let ghost digits = if s.len() > 0 && (s[0] == '+' || negative) {
        s.drop_first()
    } else {
        s
    };
    assert(digits == s.subrange(first as int, n as int));
    if first >= n {
        return None;
    }
    let mut acc: u128 = 0;
    let mut i = first;
    while i < n
        invariant
            first <= i <= n == s.len(),
            chars@ == s,
            negative == (signed && s.len() > 0 && s[0] == '-'),
            digits == (if s.len() > 0 && (s[0] == '+' || negative) {
                s.drop_first()
            } else {
                s
            }),
            digits == s.subrange(first as int, n as int),
            all_digits(s.subrange(first as int, i as int)),
            acc <= BIG ==> acc == digits_value(s.subrange(first as int, i as int)),
            acc > BIG ==> digits_value(s.subrange(first as int, i as int)) > BIG,
            acc <= 10 * BIG + 9,
        decreases n - i,
    {
        let c = chars[i];
        if !('0' <= c && c <= '9') {
            assert(digits[i - first] == c);
            assert(!is_digit(digits[i - first]));
            assert(!all_digits(digits));
            return None;
        }
        let ghost p = s.subrange(first as int, i as int);
        assert(s.subrange(first as int, i + 1) == p.push(c));
        proof {
            lemma_digits_value_push(p, c);
        }
        let d = (c as u32 - 48) as u128;
        if acc <= BIG {
            acc = acc * 10 + d;
        }
        i = i + 1;
    }
    assert(s.subrange(first as int, n as int) == digits);
    if acc > BIG {
        return None;
    }
    let v: i128 = if negative {
        -(acc as i128)
    } else {
        acc as i128
    };
    if lo <= v && v <= hi {
        Some(v)
    } else {
        None
    }
}


/// The decimal text of a natural number starts with a digit.
proof fn lemma_decimal_start(n: nat)
    ensures
        decimal(n).len() > 0,
        is_digit(decimal(n)[0]),
    decreases n,
{
    if n >= 10 {
        lemma_decimal_start(n / 10);
    }
}

/// The text of an integer starts with `-` exactly when it is negative, and
/// otherwise with a digit.
pub(crate) proof fn lemma_int_text_start(i: int)
    ensures
        int_text(i).len() > 0,
        int_text(i)[0] == '-' <==> i < 0,
        i >= 0 ==> is_digit(int_text(i)[0]),
{
    if i < 0 {
        lemma_decimal_start((-i) as nat);
    } else {
        lemma_decimal_start(i as nat);
    }
}


/// Trimming never lengthens a text.
pub(crate) proof fn lemma_trim_len(s: Seq<char>)
    ensures
        trim(s).len() <= s.len(),
{
    lemma_trim_start_len(s);
    lemma_trim_end_len(trim_start(s));
}

proof fn lemma_trim_start_len(s: Seq<char>)
    ensures
        trim_start(s).len() <= s.len(),
    decreases s.len(),
{
    if s.len() > 0 && is_white_space(s[0]) {
        lemma_trim_start_len(s.drop_first());
    }
}

proof fn lemma_trim_end_len(s: Seq<char>)
    ensures
        trim_end(s).len() <= s.len(),
    decreases s.len(),
{
    if s.len() > 0 && is_white_space(s.last()) {
        lemma_trim_end_len(s.drop_last());
    }
}

} // verus!
