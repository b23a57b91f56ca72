//! Points written out for people: decimal degrees, as short as they can be
//! written without losing a digit.

use crate::geo::Point;
use vstd::prelude::*;

verus! {

/// Raw units in one degree.
pub const UNITS_PER_DEGREE: u32 = 10_000_000;

/// The character of a decimal digit.
pub open spec fn digit(value: int) -> char {
    if value == 0 {
        '0'
    } else if value == 1 {
        '1'
    } else if value == 2 {
        '2'
    } else if value == 3 {
        '3'
    } else if value == 4 {
        '4'
    } else if value == 5 {
        '5'
    } else if value == 6 {
        '6'
    } else if value == 7 {
        '7'
    } else if value == 8 {
        '8'
    } else {
        '9'
    }
}

/// A natural number in decimal, without leading zeros.
pub open spec fn whole_digits(value: nat) -> Seq<char>
    decreases value,
{
    if value < 10 {
        seq![digit(value as int)]
    } else {
        whole_digits(value / 10).push(digit((value % 10) as int))
    }
}

/// The powers of ten that count the decimal places of a coordinate, and zero
/// for the place after the last.
spec fn is_place_value(scale: nat) -> bool {
    scale == 0 || scale == 1 || scale == 10 || scale == 100 || scale == 1_000 || scale == 10_000
        || scale == 100_000 || scale == 1_000_000
}

/// The decimal places of `value / (10 * scale)`, most significant first,
/// up to the last one that is not zero. `scale` is a power of ten and `value`
/// is below ten times `scale`.
pub open spec fn fraction_digits(value: nat, scale: nat) -> Seq<char>
    decreases scale,
{
    if value == 0 || scale == 0 {
        Seq::empty()
    } else {
        seq![digit((value / scale) as int)] + fraction_digits(value % scale, scale / 10)
    }
}

/// A coordinate in decimal degrees: a minus sign where it is negative, the
/// whole degrees, and, where there is a fraction, a point and its decimal
/// places without trailing zeros.
pub open spec fn degrees_text(raw: int) -> Seq<char> {
    let size = if raw < 0 {
        -raw
    } else {
        raw
    };
    let sign = if raw < 0 {
        seq!['-']
    } else {
        Seq::<char>::empty()
    };
    let whole = whole_digits((size / 10_000_000) as nat);
    let fraction = if size % 10_000_000 == 0 {
        Seq::<char>::empty()
    } else {
        seq!['.'] + fraction_digits((size % 10_000_000) as nat, 1_000_000)
    };
    sign + whole + fraction
}

/// A point as `(latitude, longitude)` in decimal degrees.
pub open spec fn point_text(point: Point) -> Seq<char> {
    seq!['('] + degrees_text(point.latitude as int) + seq![',', ' '] + degrees_text(
        point.longitude as int,
    ) + seq![')']
}

fn digit_text(value: u32) -> (text: &'static str)
    requires
        value < 10,
    ensures
        text@ == seq![digit(value as int)],
{
    proof {
        reveal_strlit("0");
        reveal_strlit("1");
        reveal_strlit("2");
        reveal_strlit("3");
        reveal_strlit("4");
        reveal_strlit("5");
        reveal_strlit("6");
        reveal_strlit("7");
        reveal_strlit("8");
        reveal_strlit("9");
    }
    let text = if value == 0 {
        "0"
    } else if value == 1 {
        "1"
    } else if value == 2 {
        "2"
    } else if value == 3 {
        "3"
    } else if value == 4 {
        "4"
    } else if value == 5 {
        "5"
    } else if value == 6 {
        "6"
    } else if value == 7 {
        "7"
    } else if value == 8 {
        "8"
    } else {
        "9"
    };
    assert(text@ =~= seq![digit(value as int)]);
    text
}

fn push_whole(text: &mut String, value: u32)
    ensures
        final(text)@ == old(text)@ + whole_digits(value as nat),
    decreases value,
{
    if value >= 10 {
        push_whole(text, value / 10);
    }
    text.append(digit_text(value % 10));
    assert(text@ =~= old(text)@ + whole_digits(value as nat));
}

fn push_fraction(text: &mut String, value: u32)
    requires
        value < 10_000_000,
    ensures
        final(text)@ == old(text)@ + fraction_digits(value as nat, 1_000_000),
{
    let mut rest: u32 = value;
    let mut scale: u32 = 1_000_000;
    while rest != 0 && scale != 0
        invariant
            is_place_value(scale as nat),
            rest < 10 * scale || rest == 0,
            text@ + fraction_digits(rest as nat, scale as nat) == old(text)@ + fraction_digits(
                value as nat,
                1_000_000,
            ),
        decreases scale,
    {
        let ghost before = text@;
        text.append(digit_text(rest / scale));
        proof {
            assert(text@ + fraction_digits((rest % scale) as nat, (scale / 10) as nat) =~= before
                + fraction_digits(rest as nat, scale as nat));
        }
        rest = rest % scale;
        scale = scale / 10;
    }
}

fn push_degrees(text: &mut String, raw: i32)
    ensures
        final(text)@ == old(text)@ + degrees_text(raw as int),
{
    proof {
        reveal_strlit("-");
        reveal_strlit(".");
    }
    let size: u32 = if raw < 0 {
        text.append("-");
        (-(raw as i64)) as u32
    } else {
        raw as u32
    };
    push_whole(text, size / UNITS_PER_DEGREE);
    if size % UNITS_PER_DEGREE != 0 {
        text.append(".");
        push_fraction(text, size % UNITS_PER_DEGREE);
    }
    assert("-"@ =~= seq!['-']);
    assert("."@ =~= seq!['.']);
    assert(text@ =~= old(text)@ + degrees_text(raw as int));
}

impl Point {
    /// Writes the point as `(latitude, longitude)` in decimal degrees.
    pub fn to_text(&self) -> (text: String)
        ensures
            text@ == point_text(*self),
    {
        proof {
            reveal_strlit("(");
            reveal_strlit(", ");
            reveal_strlit(")");
        }
        let mut text = String::new();
        text.append("(");
        push_degrees(&mut text, self.latitude);
        text.append(", ");
        push_degrees(&mut text, self.longitude);
        text.append(")");
        assert("("@ =~= seq!['(']);
        assert(", "@ =~= seq![',', ' ']);
        assert(")"@ =~= seq![')']);
        assert(text@ =~= point_text(*self));
        text
    }
}

} // verus!
