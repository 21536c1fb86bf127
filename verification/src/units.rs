//! Fixed-point value types for money and weight, with their display rules.
//!
//! Money is stored as a count of the smallest currency unit (cents) and
//! displayed as `major.minor` with the minor part zero-padded to two digits.
//! Weight is stored in grams and displayed in a unit band chosen by magnitude:
//! pounds at 908 g and above, ounces from 57 g, grams below that.

use vstd::prelude::*;

verus! {

/// The character for a single decimal digit.
pub open spec fn digit_char(d: nat) -> char {
    if d == 0 {
        '0'
    } else if d == 1 {
        '1'
    } else if d == 2 {
        '2'
    } else if d == 3 {
        '3'
    } else if d == 4 {
        '4'
    } else if d == 5 {
        '5'
    } else if d == 6 {
        '6'
    } else if d == 7 {
        '7'
    } else if d == 8 {
        '8'
    } else {
        '9'
    }
}

/// The decimal rendering of a natural number, most significant digit first,
/// without leading zeros (a lone zero for 0).
pub open spec fn decimal(n: nat) -> Seq<char>
    decreases n,
{
    if n < 10 {
        seq![digit_char(n)]
    } else {
        decimal(n / 10).push(digit_char(n % 10))
    }
}

/// How a count of cents is displayed: the major unit, a dot, and the minor
/// unit zero-padded to two digits.
pub open spec fn money_display(c: nat) -> Seq<char> {
    decimal(c / 100) + seq!['.'] + (if c % 100 < 10 {
        seq!['0', digit_char(c % 100)]
    } else {
        decimal(c % 100)
    })
}

/// Pounds, rounded up, for a weight in grams.  One pound is exactly
/// 453.59237 g = 45359237/100000 g, so ceil(g / 453.59237) is the integer
/// ceiling division of g * 100000 by 45359237.
pub open spec fn pounds_of(g: nat) -> nat {
    (g * 100000 + 45359236) / 45359237
}

/// Ounces, rounded up, for a weight in grams.  One ounce is a sixteenth of a
/// pound, exactly 28.349523125 g = 45359237/1600000 g, so
/// ceil(g / 28.349523125) is the integer ceiling division of g * 1600000 by
/// 45359237.
pub open spec fn ounces_of(g: nat) -> nat {
    (g * 1600000 + 45359236) / 45359237
}

/// How a weight in grams is displayed: >= 908 g in whole pounds, >= 57 g in
/// whole ounces, otherwise in grams, each rounded up and suffixed with its
/// unit.  The stored value is always grams; this is a lossy, human-facing
/// rendering only.
pub open spec fn weight_display(g: nat) -> Seq<char> {
    if g >= 908 {
        decimal(pounds_of(g)) + seq!['l', 'b']
    } else if g >= 57 {
        decimal(ounces_of(g)) + seq!['o', 'z']
    } else {
        decimal(g) + seq!['g']
    }
}

/// An amount of money as a count of the smallest currency unit.  Unsigned by
/// construction, so it is never negative.
#[derive(Debug, Clone, Copy, PartialEq, Eq, Structural)]
pub struct Cents(u32);

impl View for Cents {
    type V = u32;

    closed spec fn view(&self) -> u32 {
        self.0
    }
}

impl Cents {
    pub fn new(cents: u32) -> (r: Self)
        ensures
            r@ == cents,
    {
        Cents(cents)
    }

    pub fn as_u32(self) -> (r: u32)
        ensures
            r == self@,
    {
        self.0
    }

    /// Renders the amount as `major.minor`, the minor unit zero-padded to two
    /// digits.
    pub fn display(&self) -> (r: String)
        ensures
            r@ == money_display(self@ as nat),
    {
        let mut s = format_u64((self.0 / 100) as u64);
        s.append(".");
        let minor: u32 = self.0 % 100;
        if minor < 10 {
            s.append("0");
            s.append(digit_str(minor));
        } else {
            let m = format_u64(minor as u64);
            s.append(m.as_str());
        }
        proof {
            reveal_strlit(".");
            reveal_strlit("0");
            assert("."@ =~= seq!['.']);
            assert("0"@ =~= seq!['0']);
            assert(s@ =~= money_display(self@ as nat));
        }
        s
    }
}

/// A weight as a count of grams.  Unsigned by construction, so it is never
/// negative.
#[derive(Debug, Clone, Copy, PartialEq, Eq, Structural)]
pub struct Grams(u32);

impl View for Grams {
    type V = u32;

    closed spec fn view(&self) -> u32 {
        self.0
    }
}

impl Grams {
    pub fn new(grams: u32) -> (r: Self)
        ensures
            r@ == grams,
    {
        Grams(grams)
    }

    pub fn as_u32(self) -> (r: u32)
        ensures
            r == self@,
    {
        self.0
    }

    /// Renders the weight in the unit band its magnitude selects: whole
    /// pounds, whole ounces, or grams, each rounded up.
    pub fn display(&self) -> (r: String)
        ensures
            r@ == weight_display(self@ as nat),
    {
        let g = self.0;
        if g >= 908 {
            let p: u64 = ((g as u64) * 100000 + 45359236) / 45359237;
            let mut s = format_u64(p);
            s.append("lb");
            proof {
                reveal_strlit("lb");
                assert("lb"@ =~= seq!['l', 'b']);
                assert(s@ =~= weight_display(self@ as nat));
            }
            s
        } else if g >= 57 {
            let o: u64 = ((g as u64) * 1600000 + 45359236) / 45359237;
            let mut s = format_u64(o);
            s.append("oz");
            proof {
                reveal_strlit("oz");
                assert("oz"@ =~= seq!['o', 'z']);
                assert(s@ =~= weight_display(self@ as nat));
            }
            s
        } else {
            let mut s = format_u64(g as u64);
            s.append("g");
            proof {
                reveal_strlit("g");
                assert("g"@ =~= seq!['g']);
                assert(s@ =~= weight_display(self@ as nat));
            }
            s
        }
    }
}

/// The one-character string for a single decimal digit.
fn digit_str(d: u32) -> (r: &'static str)
    requires
        d < 10,
    ensures
        r@ == seq![digit_char(d as nat)],
{
    if d == 0 {
        proof {
            reveal_strlit("0");
            assert("0"@ =~= seq![digit_char(0)]);
        }
        "0"
    } else if d == 1 {
        proof {
            reveal_strlit("1");
            assert("1"@ =~= seq![digit_char(1)]);
        }
        "1"
    } else if d == 2 {
        proof {
            reveal_strlit("2");
            assert("2"@ =~= seq![digit_char(2)]);
        }
        "2"
    } else if d == 3 {
        proof {
            reveal_strlit("3");
            assert("3"@ =~= seq![digit_char(3)]);
        }
        "3"
    } else if d == 4 {
        proof {
            reveal_strlit("4");
            assert("4"@ =~= seq![digit_char(4)]);
        }
        "4"
    } else if d == 5 {
        proof {
            reveal_strlit("5");
            assert("5"@ =~= seq![digit_char(5)]);
        }
        "5"
    } else if d == 6 {
        proof {
            reveal_strlit("6");
            assert("6"@ =~= seq![digit_char(6)]);
        }
        "6"
    } else if d == 7 {
        proof {
            reveal_strlit("7");
            assert("7"@ =~= seq![digit_char(7)]);
        }
        "7"
    } else if d == 8 {
        proof {
            reveal_strlit("8");
            assert("8"@ =~= seq![digit_char(8)]);
        }
        "8"
    } else {
        proof {
            reveal_strlit("9");
            assert("9"@ =~= seq![digit_char(9)]);
        }
        "9"
    }
}

/// Renders a number in decimal.
fn format_u64(n: u64) -> (r: String)
    ensures
        r@ == decimal(n as nat),
    decreases n,
{
    if n < 10 {
        String::from_str(digit_str(n as u32))
    } else {
        let mut s = format_u64(n / 10);
        s.append(digit_str((n % 10) as u32));
        proof {
            assert(s@ =~= decimal(n as nat));
        }
        s
    }
}

} // verus!
