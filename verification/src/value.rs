//! Values of command fields and their literal text.

use vstd::prelude::*;

verus! {

/// The value of one command field.
#[derive(Debug, Clone, Copy)]
pub enum KittyImageCmdValue {
    /// A single character, written as itself.
    C(char),
    /// A signed integer, written in decimal.
    I(i32),
    /// An unsigned integer, written in decimal.
    U(u32),
}

/// The character of the decimal digit `d`, for `d` below ten.
pub open spec fn digit_char(d: nat) -> char {
    (48 + d) as u8 as char
}

/// The decimal numeral of `n`: no sign and no leading zero, `"0"` for zero.
pub open spec fn decimal(n: nat) -> Seq<char>
    decreases n,
{
    if n < 10 {
        seq![digit_char(n)]
    } else {
        decimal(n / 10).push(digit_char(n % 10))
    }
}

/// The decimal numeral of `i`, with a leading `-` where `i` is negative.
pub open spec fn signed_decimal(i: int) -> Seq<char> {
    if i < 0 {
        seq!['-'] + decimal((-i) as nat)
    } else {
        decimal(i as nat)
    }
}

impl KittyImageCmdValue {
    /// The text that stands for this value in a frame.
    pub open spec fn text(self) -> Seq<char> {
        match self {
            KittyImageCmdValue::C(c) => seq![c],
            KittyImageCmdValue::I(i) => signed_decimal(i as int),
            KittyImageCmdValue::U(u) => decimal(u as nat),
        }
    }

    /// The value's text as a string of its own.
    pub fn to_text(&self) -> (text: String)
        ensures
            text@ == self.text(),
    {
        let mut text = String::new();
        self.write_to(&mut text);
        text
    }

    /// Appends the value's text to `out`.
    pub fn write_to(&self, out: &mut String)
        ensures
            final(out)@ == old(out)@ + self.text(),
    {
        match *self {
            KittyImageCmdValue::C(c) => {
                out.push(c);
                assert(out@ =~= old(out)@ + seq![c]);
            },
            KittyImageCmdValue::I(i) => {
                if i < 0 {
                    out.push('-');
                    let magnitude: u64 = (0 - (i as i64)) as u64;
                    push_decimal(out, magnitude);
                    assert(out@ =~= old(out)@ + (seq!['-'] + decimal((-i) as nat)));
                } else {
                    push_decimal(out, i as u64);
                }
            },
            KittyImageCmdValue::U(u) => {
                push_decimal(out, u as u64);
            },
        }
    }
}

/// Appends the decimal numeral of `n` to `out`.
pub fn push_decimal(out: &mut String, n: u64)
    ensures
        final(out)@ == old(out)@ + decimal(n as nat),
    decreases n,
{
    if n >= 10 {
        push_decimal(out, n / 10);
    }
    let digit: u8 = (n % 10) as u8;
    out.push((48 + digit) as char);
    assert(out@ =~= old(out)@ + decimal(n as nat));
}

} // verus!
