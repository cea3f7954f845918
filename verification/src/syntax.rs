//! Parse trees: what the grammar recognised in a source text, before it is
//! turned into a script.

use vstd::prelude::*;
use vstd::string::*;

use crate::ast::Scalar;

verus! {

/// The rules of the grammar that decide how a tree is read.
#[derive(Clone, Copy, Debug, PartialEq, Eq, Hash, Structural)]
pub enum Rule {
    File,
    Camera,
    Scene,
    Timeline,
    Object,
    SceneDuration,
    StringLiteral,
    Number,
    HexColor,
    Tuple,
    AnimationInstant,
    AnimationRange,
    Comment,
    EndOfInput,
    /// Any other rule: such a node is read by its place among its siblings.
    Other,
}

/// A node of a parse tree: the rule that matched, the text that it matched,
/// and the nodes of the rules that matched inside it, in source order.
#[derive(Debug, PartialEq)]
pub struct Pair {
    pub rule: Rule,
    pub text: String,
    /// The number that the text spells, where it spells one.
    pub number: Option<Scalar>,
    pub inner: Vec<Pair>,
}

/// The number that a text of decimal digits spells; nothing where a
/// character is no digit.
pub open spec fn digits_value(digits: Seq<u8>) -> Option<nat>
    decreases digits.len(),
{
    if digits.len() == 0 {
        Some(0)
    } else {
        match digits_value(digits.drop_last()) {
            Some(front) => if 0x30 <= digits.last() <= 0x39 {
                Some(front * 10 + (digits.last() - 0x30) as nat)
            } else {
                None
            },
            None => None,
        }
    }
}

/// The count that a text spells: decimal digits, at least one, with or
/// without a plus sign in front; nothing where the count does not fit in 64
/// bits.
pub open spec fn count_of(bytes: Seq<u8>) -> Option<u64> {
    let digits = if bytes.len() > 0 && bytes[0] == 0x2b {
        bytes.drop_first()
    } else {
        bytes
    };
    if digits.len() == 0 {
        None
    } else {
        match digits_value(digits) {
            Some(value) => if value <= u64::MAX {
                Some(value as u64)
            } else {
                None
            },
            None => None,
        }
    }
}

proof fn digits_value_grows(digits: Seq<u8>, n: int)
    requires
        0 <= n <= digits.len(),
    ensures
        digits_value(digits.take(n)) is None ==> digits_value(digits) is None,
        digits_value(digits) matches Some(all) ==> digits_value(digits.take(n)) matches Some(front)
            && front <= all,
    decreases digits.len() - n,
{
    if n < digits.len() {
        digits_value_grows(digits, n + 1);
        assert(digits.take(n + 1).drop_last() =~= digits.take(n));
    } else {
        assert(digits.take(n) =~= digits);
    }
}

/// Reads a count.
pub fn read_count(text: &str) -> (count: Option<u64>)
    ensures
        count == count_of(text.spec_bytes()),
{
    let bytes = text.as_bytes();
    let start: usize = if bytes.len() > 0 && bytes[0] == 0x2b {
        1
    } else {
        0
    };
    if start == bytes.len() {
        return None;
    }
    let ghost digits = bytes@.skip(start as int);
    assert(digits =~= if start == 1 {
        bytes@.drop_first()
    } else {
        bytes@
    });
    let mut value: u64 = 0;
    let mut i: usize = start;
    assert(digits.take(0) =~= Seq::<u8>::empty());
    while i < bytes.len()
        invariant
            start <= i <= bytes.len(),
            start < bytes.len(),
            bytes@ == text.spec_bytes(),
            digits == bytes@.skip(start as int),
            digits == (if bytes@.len() > 0 && bytes@[0] == 0x2b {
                bytes@.drop_first()
            } else {
                bytes@
            }),
            digits_value(digits.take(i - start)) == Some(value as nat),
        decreases bytes.len() - i,
    {
        let byte = bytes[i];
        proof {
            assert(digits.take(i - start + 1).drop_last() =~= digits.take(i - start));
            assert(digits.take(i - start + 1).last() == byte);
            digits_value_grows(digits, i - start + 1);
        }
        if byte < 0x30 || byte > 0x39 {
            return None;
        }
        let digit: u64 = (byte - 0x30) as u64;
        match value.checked_mul(10) {
            Some(tens) => match tens.checked_add(digit) {
                Some(next) => {
                    value = next;
                },
                None => {
                    return None;
                },
            },
            None => {
                return None;
            },
        }
        i += 1;
    }
    assert(digits.take(i - start) =~= digits);
    Some(value)
}

} // verus!
