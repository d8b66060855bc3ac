//! Decimal numerals, kept digit by digit so that no precision is lost.

use vstd::prelude::*;

verus! {

/// A decimal numeral as it was written: its digits, and how many of them
/// stand after the point. It denotes `numerator / 10^scale` exactly.
#[derive(Debug, PartialEq, Eq)]
pub struct Decimal {
    /// The digits, most significant first, each in `0..=9`; the point is left out.
    pub digits: Vec<u8>,
    /// The number of digits after the point.
    pub scale: usize,
}

/// The mathematical content of a [`Decimal`].
pub struct DecimalView {
    pub digits: Seq<u8>,
    pub scale: nat,
}

/// The number that a sequence of decimal digits denotes, read as an integer.
pub open spec fn digits_value(digits: Seq<u8>) -> nat
    decreases digits.len(),
{
    if digits.len() == 0 {
        0
    } else {
        digits_value(digits.drop_last()) * 10 + digits.last() as nat
    }
}

/// Ten to the power `n`.
pub open spec fn pow10(n: nat) -> nat
    decreases n,
{
    if n == 0 {
        1
    } else {
        10 * pow10((n - 1) as nat)
    }
}

impl DecimalView {
    /// A numeral has at least one digit before the point, and every digit is below ten.
    pub open spec fn wf(self) -> bool {
        &&& self.scale < self.digits.len()
        &&& forall|i: int| 0 <= i < self.digits.len() ==> #[trigger] self.digits[i] <= 9
    }

    /// The numeral read without its point.
    pub open spec fn numerator(self) -> nat {
        digits_value(self.digits)
    }

    /// The power of ten by which the numerator is divided.
    pub open spec fn denominator(self) -> nat {
        pow10(self.scale)
    }
}

impl View for Decimal {
    type V = DecimalView;

    open spec fn view(&self) -> DecimalView {
        DecimalView { digits: self.digits@, scale: self.scale as nat }
    }
}

/// The character that shows a digit; anything from ten up shows as `?`.
pub open spec fn digit_char(d: u8) -> char {
    if d == 0 {
        '0'
    } else if d == 1 {
        '1'
    } else if d == 2 {
        '2'
    } else if d == 3 {
        '3'
    } else if d == 4 {
        '4'
    } else if d == 5 {
        '5'
    } else if d == 6 {
        '6'
    } else if d == 7 {
        '7'
    } else if d == 8 {
        '8'
    } else if d == 9 {
        '9'
    } else {
        '?'
    }
}

impl DecimalView {
    /// The digits as characters, without the point.
    pub open spec fn digit_chars(self) -> Seq<char> {
        self.digits.map_values(|d: u8| digit_char(d))
    }

    /// The index of the first digit after the point, or the number of digits
    /// where there is no digit after the point.
    pub open spec fn point(self) -> int {
        if 0 < self.scale <= self.digits.len() {
            self.digits.len() - self.scale
        } else {
            self.digits.len() as int
        }
    }

    /// The numeral written out: its digits, with a point before the last
    /// `scale` of them where `scale` is not zero.
    pub open spec fn text(self) -> Seq<char> {
        let chars = self.digit_chars();
        if self.point() < chars.len() {
            chars.take(self.point()) + seq!['.'] + chars.skip(self.point())
        } else {
            chars
        }
    }
}

/// The one-character string that shows a digit.
fn digit_str(d: u8) -> (s: &'static str)
    ensures
        s@ == seq![digit_char(d)],
{
    proof {
        reveal_strlit("0");
        reveal_strlit("1");
        reveal_strlit("2");
        reveal_strlit("3");
        reveal_strlit("4");
        reveal_strlit("5");
        reveal_strlit("6");
        reveal_strlit("7");
        reveal_strlit("8");
        reveal_strlit("9");
        reveal_strlit("?");
    }
    let s = if d == 0 {
        "0"
    } else if d == 1 {
        "1"
    } else if d == 2 {
        "2"
    } else if d == 3 {
        "3"
    } else if d == 4 {
        "4"
    } else if d == 5 {
        "5"
    } else if d == 6 {
        "6"
    } else if d == 7 {
        "7"
    } else if d == 8 {
        "8"
    } else if d == 9 {
        "9"
    } else {
        "?"
    };
    s
}

impl Decimal {
    /// Writes the numeral out, as [`DecimalView::text`] describes.
    pub fn to_text(&self) -> (out: String)
        ensures
            out@ == self@.text(),
    {
        let n = self.digits.len();
        let point: usize = if 0 < self.scale && self.scale <= n {
            n - self.scale
        } else {
            n
        };
        let ghost chars = self@.digit_chars();
        let mut out = String::new();
        let mut i: usize = 0;
        while i < n
            invariant
                i <= n,
                n == self.digits.len(),
                point == self@.point(),
                chars == self@.digit_chars(),
                out@ == if i <= point {
                    chars.take(i as int)
                } else {
                    chars.take(point as int) + seq!['.'] + chars.subrange(point as int, i as int)
                },
            decreases n - i,
        {
            if i == point {
                proof {
                    reveal_strlit(".");
                }
                out.append(".");
                assert(out@ =~= chars.take(point as int) + seq!['.'] + chars.subrange(
                    point as int,
                    i as int,
                ));
            }
            out.append(digit_str(self.digits[i]));
            assert(i >= point ==> out@ =~= chars.take(point as int) + seq!['.'] + chars.subrange(
                point as int,
                i + 1,
            ));
            i += 1;
        }
        out
    }

    /// Whether two numerals are written with the same digits and the same scale.
    pub fn same_as(&self, other: &Decimal) -> (same: bool)
        ensures
            same == (self@ == other@),
    {
        if self.scale != other.scale || self.digits.len() != other.digits.len() {
            return false;
        }
        let n = self.digits.len();
        let mut i: usize = 0;
        while i < n
            invariant
                i <= n,
                n == self.digits.len(),
                n == other.digits.len(),
                self.digits@.take(i as int) == other.digits@.take(i as int),
            decreases n - i,
        {
            if self.digits[i] != other.digits[i] {
                return false;
            }
            assert(self.digits@.take(i + 1) =~= self.digits@.take(i as int).push(
                self.digits@[i as int],
            ));
            assert(other.digits@.take(i + 1) =~= other.digits@.take(i as int).push(
                other.digits@[i as int],
            ));
            i += 1;
        }
        assert(self.digits@.take(n as int) =~= self.digits@);
        assert(other.digits@.take(n as int) =~= other.digits@);
        true
    }
}

impl Clone for Decimal {
    fn clone(&self) -> (res: Self)
        ensures
            res@ == self@,
    {
        Decimal { digits: self.digits.clone(), scale: self.scale }
    }
}

} // verus!
