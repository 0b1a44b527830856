use vstd::prelude::*;
use vstd::string::*;

verus! {

/// Width, in characters, of the service-name column of the ranking.
pub const LABEL_WIDTH: usize = 50;

pub open spec fn digit_char(d: int) -> char {
    if d == 0 {
        '0'
    } else if d == 1 {
        '1'
    } else if d == 2 {
        '2'
    } else if d == 3 {
        '3'
    } else if d == 4 {
        '4'
    } else if d == 5 {
        '5'
    } else if d == 6 {
        '6'
    } else if d == 7 {
        '7'
    } else if d == 8 {
        '8'
    } else {
        '9'
    }
}

/// Decimal digits of a natural number, without leading zeros.
pub open spec fn nat_text(n: nat) -> Seq<char>
    decreases n,
{
    if n < 10 {
        seq![digit_char(n as int)]
    } else {
        nat_text(n / 10).push(digit_char((n % 10) as int))
    }
}

/// Decimal text of an integer, with `'-'` before a negative one.
pub open spec fn int_text(i: int) -> Seq<char> {
    if i < 0 {
        seq!['-'] + nat_text((-i) as nat)
    } else {
        nat_text(i as nat)
    }
}

/// Text of an amount of hundredths, as a decimal without trailing zeros:
/// 2550 is `25.5`, 1000 is `10`, 5 is `0.05`, -150 is `-1.5`.
pub open spec fn cents_text(c: int) -> Seq<char> {
    let m = if c < 0 { -c } else { c };
    let whole = m / 100;
    let frac = m % 100;
    let sign = if c < 0 { seq!['-'] } else { Seq::<char>::empty() };
    let tail = if frac == 0 {
        Seq::<char>::empty()
    } else if frac % 10 == 0 {
        seq!['.', digit_char(frac / 10)]
    } else {
        seq!['.', digit_char(frac / 10), digit_char(frac % 10)]
    };
    sign + nat_text(whole as nat) + tail
}

/// Text of a non-negative amount of hundredths with exactly two places: 820 is `8.20`.
pub open spec fn two_places_text(m: nat) -> Seq<char> {
    nat_text(m / 100) + seq!['.', digit_char(((m / 10) % 10) as int), digit_char((m % 10) as int)]
}

pub open spec fn spaces(n: nat) -> Seq<char> {
    Seq::new(n, |i: int| ' ')
}

/// A label fitted to the column: cut to its width, or filled up with spaces.
pub open spec fn label_column(l: Seq<char>) -> Seq<char> {
    if l.len() >= LABEL_WIDTH {
        l.take(LABEL_WIDTH as int)
    } else {
        l + spaces((LABEL_WIDTH - l.len()) as nat)
    }
}

fn digit_str(d: u8) -> (r: &'static str)
    requires
        d < 10,
    ensures
        r@ == seq![digit_char(d as int)],
{
    if d == 0 {
        proof {
            reveal_strlit("0");
        }
        "0"
    } else if d == 1 {
        proof {
            reveal_strlit("1");
        }
        "1"
    } else if d == 2 {
        proof {
            reveal_strlit("2");
        }
        "2"
    } else if d == 3 {
        proof {
            reveal_strlit("3");
        }
        "3"
    } else if d == 4 {
        proof {
            reveal_strlit("4");
        }
        "4"
    } else if d == 5 {
        proof {
            reveal_strlit("5");
        }
        "5"
    } else if d == 6 {
        proof {
            reveal_strlit("6");
        }
        "6"
    } else if d == 7 {
        proof {
            reveal_strlit("7");
        }
        "7"
    } else if d == 8 {
        proof {
            reveal_strlit("8");
        }
        "8"
    } else {
        proof {
            reveal_strlit("9");
        }
        "9"
    }
}

/// Writes a natural number in decimal.
pub fn nat_to_text(n: u128) -> (r: String)
    ensures
        r@ == nat_text(n as nat),
    decreases n,
{
    if n < 10 {
        String::from_str(digit_str(n as u8))
    } else {
        let mut s = nat_to_text(n / 10);
        s.append(digit_str((n % 10) as u8));
        s
    }
}

/// Writes an integer in decimal.
pub fn int_to_text(i: i128) -> (r: String)
    ensures
        r@ == int_text(i as int),
{
    if i < 0 {
        let magnitude: u128 = (-(i + 1)) as u128 + 1;
        let mut s = String::from_str("-");
        proof {
            reveal_strlit("-");
        }
        let digits = nat_to_text(magnitude);
        s.append(digits.as_str());
        s
    } else {
        nat_to_text(i as u128)
    }
}

/// Writes an amount of hundredths as a decimal without trailing zeros.
pub fn cents_to_text(c: i128) -> (r: String)
    requires
        c > i128::MIN,
    ensures
        r@ == cents_text(c as int),
{
    let m: i128 = if c < 0 { -c } else { c };
    let whole = m / 100;
    let frac = m % 100;
    let mut s = if c < 0 {
        proof {
            reveal_strlit("-");
        }
        String::from_str("-")
    } else {
        String::new()
    };
    let digits = nat_to_text(whole as u128);
    s.append(digits.as_str());
    if frac != 0 {
        proof {
            reveal_strlit(".");
        }
        s.append(".");
        s.append(digit_str((frac / 10) as u8));
        if frac % 10 != 0 {
            s.append(digit_str((frac % 10) as u8));
        }
    }
    proof {
        let ghost sign = if c < 0 { seq!['-'] } else { Seq::<char>::empty() };
        assert(s@ =~= cents_text(c as int));
    }
    s
}

/// Writes a non-negative amount of hundredths with exactly two places.
pub fn two_places_to_text(m: u128) -> (r: String)
    ensures
        r@ == two_places_text(m as nat),
{
    let mut s = nat_to_text(m / 100);
    proof {
        reveal_strlit(".");
    }
    s.append(".");
    s.append(digit_str(((m / 10) % 10) as u8));
    s.append(digit_str((m % 10) as u8));
    proof {
        assert(s@ =~= two_places_text(m as nat));
    }
    s
}

/// Fits a label to the ranking's name column (see [`label_column`]).
pub fn fit_label(l: &str) -> (r: String)
    ensures
        r@ == label_column(l@),
{
    let n = l.unicode_len();
    if n >= LABEL_WIDTH {
        String::from_str(l.substring_char(0, LABEL_WIDTH))
    } else {
        let mut s = String::from_str(l);
        let mut k: usize = n;
        proof {
            reveal_strlit(" ");
            assert(s@ =~= l@ + spaces(0));
        }
        while k < LABEL_WIDTH
            invariant
                n == l@.len(),
                n <= k <= LABEL_WIDTH,
                s@ == l@ + spaces((k - n) as nat),
            decreases LABEL_WIDTH - k,
        {
            s.append(" ");
            proof {
                reveal_strlit(" ");
                assert(s@ =~= l@ + spaces((k + 1 - n) as nat));
            }
            k = k + 1;
        }
        s
    }
}

} // verus!
