//! Queries and edits on the text of an expression.
use vstd::prelude::*;
use crate::text::{is_digit, chars_of, string_of};

verus! {

/// Whether the parenthesis at index `k - 1` opens a negative number: scanning
/// from index `k` onwards with `flag` telling whether a `-` has been seen, a
/// digit or a `)` after a `-` says yes, and `+`, `*`, `/`, `^` or `(` says no.
pub open spec fn negative_scan(s: Seq<char>, k: int, flag: bool) -> bool
    decreases s.len() - k,
{
    if k < 0 || k >= s.len() {
        false
    } else {
        let c = s[k];
        if is_digit(c) || c == ')' {
            if flag {
                true
            } else {
                negative_scan(s, k + 1, flag)
            }
        } else if c == '+' || c == '*' || c == '/' || c == '^' || c == '(' {
            false
        } else if c == '-' {
            negative_scan(s, k + 1, true)
        } else {
            negative_scan(s, k + 1, flag)
        }
    }
}

/// Whether the `(` at `index` of `s` opens a negative number such as `(-5)`.
pub open spec fn negative_opening(s: Seq<char>, index: int) -> bool {
    negative_scan(s, index + 1, false)
}

/// Queries and edits on the text of an expression.
pub trait MyStringExtension {
    /// Whether the text holds a decimal point.
    fn is_float(&self) -> bool;

    /// Reverses the text in place.
    fn reverse(&mut self);

    /// Whether the parenthesis at `index_parenthesis` opens a negative number.
    fn is_negative_opening_parenthesis(&self, index_parenthesis: usize) -> bool
        requires
            index_parenthesis < usize::MAX,
    ;
}

impl MyStringExtension for String {
    fn is_float(&self) -> (r: bool)
        ensures
            r == self@.contains('.'),
    {
        let chars = chars_of(self);
        let mut i: usize = 0;
        while i < chars.len()
            invariant
                chars@ == self@,
                i <= chars@.len(),
                forall|j: int| 0 <= j < i ==> chars@[j] != '.',
            decreases chars.len() - i,
        {
            if chars[i] == '.' {
                return true;
            }
            i = i + 1;
        }
        false
    }

    fn reverse(&mut self)
        ensures
            final(self)@ == old(self)@.reverse(),
    {
        let chars = chars_of(self);
        let mut reversed: Vec<char> = Vec::new();
        let mut i: usize = chars.len();
        while i > 0
            invariant
                chars@ == old(self)@,
                i <= chars@.len(),
                reversed@ == chars@.subrange(i as int, chars@.len() as int).reverse(),
            decreases i,
        {
            i = i - 1;
            reversed.push(chars[i]);
            assert(reversed@ =~= chars@.subrange(i as int, chars@.len() as int).reverse());
        }
        assert(chars@.subrange(0, chars@.len() as int) == chars@);
        assert(reversed@ == old(self)@.reverse());
        *self = string_of(&reversed);
    }

    fn is_negative_opening_parenthesis(&self, index_parenthesis: usize) -> (r: bool)
        ensures
            r == negative_opening(self@, index_parenthesis as int),
    {
        let chars = chars_of(self);
        let mut negative_flag = false;
        let mut k: usize = index_parenthesis + 1;
        while k < chars.len()
            invariant
                chars@ == self@,
                index_parenthesis < k,
                negative_opening(self@, index_parenthesis as int) == negative_scan(
                    self@,
                    k as int,
                    negative_flag,
                ),
            decreases chars.len() - k,
        {
            let chr = chars[k];
            if '0' <= chr && chr <= '9' {
                if negative_flag {
                    return true;
                }
            } else if chr == '+' || chr == '*' || chr == '/' || chr == '^' || chr == '(' {
                return false;
            } else if chr == '-' {
                negative_flag = true;
            } else if chr == ')' {
                if negative_flag {
                    return true;
                }
            }
            k = k + 1;
        }
        false
    }
}

} // verus!
