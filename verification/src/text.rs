//! Verified text building for the message log: decimal rendering of
//! numbers and names for slots, with exact character-sequence contracts.

use vstd::prelude::*;
use vstd::string::StringExecFns;
use crate::entity::Slot;

verus! {

/// The character of a single decimal digit.
pub open spec fn digit_char(d: nat) -> char {
    ((48 + d) as u8) as char
}

/// The decimal digit sequence of a non-negative number, most
/// significant digit first, with no leading zeros (except for zero
/// itself).
pub open spec fn dec_digits(n: nat) -> Seq<char>
    decreases n,
{
    if n < 10 {
        seq![digit_char(n)]
    } else {
        dec_digits(n / 10) + seq![digit_char(n % 10)]
    }
}

/// The decimal text of an integer: a minus sign for negatives, then
/// the digits of its magnitude.
pub open spec fn int_text(n: int) -> Seq<char> {
    if n < 0 {
        seq!['-'] + dec_digits((-n) as nat)
    } else {
        dec_digits(n as nat)
    }
}

/// One decimal digit as text.
fn digit_str(d: u32) -> (r: &'static str)
    requires
        d < 10,
    ensures
        r@ == seq![digit_char(d as nat)],
{
    proof {
        reveal_strlit("0");
        reveal_strlit("1");
        reveal_strlit("2");
        reveal_strlit("3");
        reveal_strlit("4");
        reveal_strlit("5");
        reveal_strlit("6");
        reveal_strlit("7");
        reveal_strlit("8");
        reveal_strlit("9");
    }
    let r = match d {
        0 => "0",
        1 => "1",
        2 => "2",
        3 => "3",
        4 => "4",
        5 => "5",
        6 => "6",
        7 => "7",
        8 => "8",
        _ => "9",
    };
    proof {
        assert(r@ =~= seq![digit_char(d as nat)]);
    }
    r
}

/// Renders a non-negative number in decimal.
pub fn u32_text(n: u32) -> (r: String)
    ensures
        r@ == dec_digits(n as nat),
    decreases n,
{
    if n < 10 {
        String::from_str(digit_str(n))
    } else {
        let mut s = u32_text(n / 10);
        s.append(digit_str(n % 10));
        s
    }
}

/// Renders an integer in decimal, with a minus sign when negative.
pub fn i32_text(n: i32) -> (r: String)
    ensures
        r@ == int_text(n as int),
{
    if n >= 0 {
        u32_text(n as u32)
    } else {
        let magnitude: u32 = (-(n as i64)) as u32;
        assert(magnitude == -(n as int));
        let mut s = String::from_str("-");
        proof {
            reveal_strlit("-");
        }
        assert(s@ =~= seq!['-']);
        let digits = u32_text(magnitude);
        s.append(digits.as_str());
        s
    }
}

/// The display name of a slot.
pub open spec fn slot_text(s: Slot) -> Seq<char> {
    match s {
        Slot::RightHand => "right hand"@,
        Slot::LeftHand => "left hand"@,
    }
}

/// Renders a slot's display name.
pub fn slot_str(s: Slot) -> (r: &'static str)
    ensures
        r@ == slot_text(s),
{
    match s {
        Slot::RightHand => "right hand",
        Slot::LeftHand => "left hand",
    }
}

} // verus!
