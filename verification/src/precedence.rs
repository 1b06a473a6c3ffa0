//! How two operations compare in precedence.
use vstd::prelude::*;
use std::cmp::Ordering;
use crate::operation::{Operation, OperationView, priority_of};

verus! {

/// How an operation compares with another in precedence: no operation comes
/// before any, and otherwise `+ -` before `* /` before `^`.
pub open spec fn precedence_order(a: OperationView, b: OperationView) -> Ordering {
    if a is Zero {
        Ordering::Less
    } else if b is Zero {
        Ordering::Greater
    } else if priority_of(a) < priority_of(b) {
        Ordering::Less
    } else if priority_of(a) > priority_of(b) {
        Ordering::Greater
    } else {
        Ordering::Equal
    }
}

impl Operation {
    /// Compares two operations by precedence.
    pub fn partial_cmp(&self, other: &Operation) -> (r: Option<Ordering>)
        ensures
            r == Some(precedence_order(self@, other@)),
    {
        match (self, other) {
            (Operation::Zero, _) => Some(Ordering::Less),
            (_, Operation::Zero) => Some(Ordering::Greater),
            _ => {
                let a = self.priority();
                let b = other.priority();
                if a < b {
                    Some(Ordering::Less)
                } else if a > b {
                    Some(Ordering::Greater)
                } else {
                    Some(Ordering::Equal)
                }
            },
        }
    }
}

} // verus!
