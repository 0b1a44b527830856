use vstd::prelude::*;

verus! {

/// Number of fractional decimal digits an [`Amount`] keeps.
pub const FRACTION_DIGITS: u32 = 8;

/// One whole currency unit expressed in [`Amount`] units.
pub const UNIT: i64 = 100_000_000;

/// Largest whole part a parsed amount may have before its units leave `i64`.
const MAX_WHOLE: u64 = 92_233_720_368;

/// A fixed-point monetary quantity: `units` hundred-millionths of a currency unit.
#[derive(Clone, Copy, Debug, PartialEq, Eq, Structural)]
pub struct Amount {
    pub units: i64,
}

pub open spec fn pow10(n: nat) -> int
    decreases n,
{
    if n == 0 {
        1
    } else {
        10 * pow10((n - 1) as nat)
    }
}

pub open spec fn is_digit(c: char) -> bool {
    '0' <= c && c <= '9'
}

pub open spec fn digit_value(c: char) -> int {
    c as int - '0' as int
}

pub open spec fn all_digits(s: Seq<char>) -> bool {
    forall|i: int| 0 <= i < s.len() ==> is_digit(#[trigger] s[i])
}

/// The natural number written by a string of decimal digits (0 for the empty string).
pub open spec fn digits_value(s: Seq<char>) -> int
    decreases s.len(),
{
    if s.len() == 0 {
        0
    } else {
        digits_value(s.drop_last()) * 10 + digit_value(s.last())
    }
}

/// Index of the first `'.'` in `s`, or `s.len()` when there is none.
pub open spec fn dot_position(s: Seq<char>) -> int
    decreases s.len(),
{
    if s.len() == 0 {
        0
    } else if s[0] == '.' {
        0
    } else {
        1 + dot_position(s.drop_first())
    }
}

pub open spec fn min_nat(a: nat, b: nat) -> nat {
    if a <= b { a } else { b }
}

/// The fraction digits `f` in amount units: the first eight digits count, the rest are cut off.
pub open spec fn fraction_units(f: Seq<char>) -> int {
    let kept = min_nat(f.len(), FRACTION_DIGITS as nat);
    digits_value(f.take(kept as int)) * pow10((FRACTION_DIGITS - kept) as nat)
}

/// The magnitude, in amount units, written by an unsigned decimal `b`:
/// one or more digits, optionally followed by `'.'` and one or more digits.
pub open spec fn unsigned_units(b: Seq<char>) -> Option<int> {
    let k = dot_position(b);
    if k == 0 || !all_digits(b.take(k)) {
        None
    } else if k == b.len() {
        Some(digits_value(b) * UNIT)
    } else if k + 1 == b.len() || !all_digits(b.skip(k + 1)) {
        None
    } else {
        Some(digits_value(b.take(k)) * UNIT + fraction_units(b.skip(k + 1)))
    }
}

/// The value, in amount units, of a decimal text with an optional leading `'-'`,
/// truncated to eight fractional digits; `None` when the text is not such a decimal
/// or its units do not fit in `i64`.
pub open spec fn decimal_units(s: Seq<char>) -> Option<int> {
    let negative = s.len() > 0 && s[0] == '-';
    let body = if negative { s.drop_first() } else { s };
    match unsigned_units(body) {
        Some(m) => if m <= i64::MAX {
            Some(if negative { -m } else { m })
        } else {
            None
        },
        None => None,
    }
}

/// The amount a decimal text stands for, if it is one (see [`decimal_units`]).
pub open spec fn amount_of(s: Seq<char>) -> Option<Amount> {
    match decimal_units(s) {
        Some(u) => Some(Amount { units: u as i64 }),
        None => None,
    }
}

proof fn lemma_pow10_positive(n: nat)
    ensures
        pow10(n) >= 1,
    decreases n,
{
    if n > 0 {
        lemma_pow10_positive((n - 1) as nat);
    }
}

proof fn lemma_digits_take_step(s: Seq<char>, i: int)
    requires
        0 <= i < s.len(),
    ensures
        digits_value(s.take(i + 1)) == digits_value(s.take(i)) * 10 + digit_value(s[i]),
{
    assert(s.take(i + 1).drop_last() =~= s.take(i));
}

proof fn lemma_digits_nonneg(s: Seq<char>)
    requires
        all_digits(s),
    ensures
        digits_value(s) >= 0,
    decreases s.len(),
{
    if s.len() > 0 {
        assert(all_digits(s.drop_last())) by {
            assert forall|i: int| 0 <= i < s.drop_last().len() implies is_digit(
                #[trigger] s.drop_last()[i],
            ) by {
                assert(s.drop_last()[i] == s[i]);
            }
        }
        lemma_digits_nonneg(s.drop_last());
        assert(is_digit(s[s.len() - 1]));
    }
}

/// A longer digit string is worth at least as much as any of its prefixes.
proof fn lemma_digits_prefix_le(s: Seq<char>, i: int)
    requires
        all_digits(s),
        0 <= i <= s.len(),
    ensures
        digits_value(s.take(i)) <= digits_value(s),
    decreases s.len() - i,
{
    if i < s.len() {
        lemma_digits_take_step(s, i);
        assert(all_digits(s.take(i))) by {
            assert forall|j: int| 0 <= j < s.take(i).len() implies is_digit(
                #[trigger] s.take(i)[j],
            ) by {
                assert(s.take(i)[j] == s[j]);
            }
        }
        lemma_digits_nonneg(s.take(i));
        assert(is_digit(s[i]));
        lemma_digits_prefix_le(s, i + 1);
    } else {
        assert(s.take(i) =~= s);
    }
}

proof fn lemma_dot_position(s: Seq<char>, i: int)
    requires
        0 <= i <= s.len(),
        forall|j: int| 0 <= j < i ==> s[j] != '.',
        i == s.len() || s[i] == '.',
    ensures
        dot_position(s) == i,
    decreases i,
{
    if i > 0 {
        let t = s.drop_first();
        assert forall|j: int| 0 <= j < i - 1 implies t[j] != '.' by {
            assert(t[j] == s[j + 1]);
        }
        if i < s.len() {
            assert(t[i - 1] == s[i]);
        }
        lemma_dot_position(t, i - 1);
    }
}

/// Reads digits `s[from..to]` into a whole number, stopping early with `None`
/// once the value exceeds `MAX_WHOLE`.
fn read_whole(s: &str, from: usize, to: usize) -> (r: Option<u64>)
    requires
        from <= to <= s@.len(),
        all_digits(s@.subrange(from as int, to as int)),
    ensures
        r matches Some(v) ==> v as int == digits_value(s@.subrange(from as int, to as int)) && v
            <= MAX_WHOLE,
        r is None ==> digits_value(s@.subrange(from as int, to as int)) > MAX_WHOLE,
{
    let ghost d = s@.subrange(from as int, to as int);
    let mut acc: u64 = 0;
    let mut i: usize = from;
    while i < to
        invariant
            from <= i <= to <= s@.len(),
            d == s@.subrange(from as int, to as int),
            all_digits(d),
            acc as int == digits_value(d.take(i - from)),
            acc <= MAX_WHOLE,
        decreases to - i,
    {
        let c = s.get_char(i);
        proof {
            assert(d[i - from] == c);
            assert(is_digit(d[i - from]));
            lemma_digits_take_step(d, i - from);
        }
        acc = acc * 10 + (c as u64 - '0' as u64);
        i = i + 1;
        if acc > MAX_WHOLE {
            proof {
                lemma_digits_prefix_le(d, i - from);
            }
            return None;
        }
    }
    proof {
        assert(d.take(to - from) =~= d);
    }
    Some(acc)
}

/// Reads fraction digits `s[from..to]` into amount units, keeping the first eight.
fn read_fraction(s: &str, from: usize, to: usize) -> (r: u64)
    requires
        from <= to <= s@.len(),
        all_digits(s@.subrange(from as int, to as int)),
    ensures
        r as int == fraction_units(s@.subrange(from as int, to as int)),
        r < UNIT,
{
    let ghost f = s@.subrange(from as int, to as int);
    let kept: usize = if to - from < 8 { to - from } else { 8 };
    let mut acc: u64 = 0;
    let mut i: usize = 0;
    while i < kept
        invariant
            kept <= 8,
            kept <= to - from,
            from <= to <= s@.len(),
            f == s@.subrange(from as int, to as int),
            all_digits(f),
            i <= kept,
            acc as int == digits_value(f.take(i as int)),
            acc < pow10(i as nat),
        decreases kept - i,
    {
        let c = s.get_char(from + i);
        proof {
            assert(f[i as int] == c);
            assert(is_digit(f[i as int]));
            lemma_digits_take_step(f, i as int);
            assert(pow10((i + 1) as nat) == 10 * pow10(i as nat));
            lemma_pow10_eight();
            lemma_pow10_le(i as nat, 7);
        }
        acc = acc * 10 + (c as u64 - '0' as u64);
        i = i + 1;
    }
    let mut k: usize = kept;
    proof {
        assert(i == kept);
        assert(pow10(0) == 1);
        assert(digits_value(f.take(kept as int)) * pow10(0) == digits_value(f.take(kept as int)));
        lemma_pow10_le(i as nat, k as nat);
    }
    while k < 8
        invariant
            kept <= k <= 8,
            acc as int == digits_value(f.take(kept as int)) * pow10((k - kept) as nat),
            acc < pow10(k as nat),
        decreases 8 - k,
    {
        proof {
            assert(pow10((k - kept + 1) as nat) == 10 * pow10((k - kept) as nat));
            assert(pow10((k + 1) as nat) == 10 * pow10(k as nat));
            lemma_pow10_le(k as nat, 7);
            lemma_pow10_eight();
            assert(digits_value(f.take(kept as int)) * pow10((k - kept + 1) as nat) == (
            digits_value(f.take(kept as int)) * pow10((k - kept) as nat)) * 10) by (nonlinear_arith)
                requires
                    pow10((k - kept + 1) as nat) == 10 * pow10((k - kept) as nat),
            ;
        }
        acc = acc * 10;
        k = k + 1;
    }
    proof {
        lemma_pow10_eight();
    }
    acc
}

/// Whether `s[from..to]` consists of decimal digits only.
fn digits_in(s: &str, from: usize, to: usize) -> (r: bool)
    requires
        from <= to <= s@.len(),
    ensures
        r == all_digits(s@.subrange(from as int, to as int)),
{
    let ghost d = s@.subrange(from as int, to as int);
    let mut i: usize = from;
    while i < to
        invariant
            from <= i <= to <= s@.len(),
            d == s@.subrange(from as int, to as int),
            forall|j: int| 0 <= j < i - from ==> is_digit(#[trigger] d[j]),
        decreases to - i,
    {
        let c = s.get_char(i);
        proof {
            assert(d[i - from] == c);
        }
        if !('0' <= c && c <= '9') {
            return false;
        }
        i = i + 1;
    }
    true
}

/// Parses a decimal text such as `"25.50"` or `"-0.0000012"` into an amount,
/// keeping eight fractional digits (further digits are cut off). Returns `None`
/// for any other text and for values whose units do not fit in `i64`.
pub fn parse_amount(s: &str) -> (r: Option<Amount>)
    ensures
        match decimal_units(s@) {
            Some(u) => r matches Some(a) && a.units == u,
            None => r is None,
        },
        r == amount_of(s@),
{
    let n = s.unicode_len();
    let negative = n > 0 && s.get_char(0) == '-';
    let start: usize = if negative { 1 } else { 0 };
    let ghost body = if negative { s@.drop_first() } else { s@ };
    proof {
        assert(body =~= s@.subrange(start as int, n as int));
    }
    let mut dot: usize = start;
    while dot < n && s.get_char(dot) != '.'
        invariant
            start <= dot <= n,
            n == s@.len(),
            forall|j: int| start <= j < dot ==> s@[j] != '.',
        decreases n - dot,
    {
        dot = dot + 1;
    }
    proof {
        assert forall|j: int| 0 <= j < dot - start implies body[j] != '.' by {
            assert(body[j] == s@[j + start]);
        }
        if dot < n {
            assert(body[dot - start] == s@[dot as int]);
        }
        lemma_dot_position(body, dot - start);
        assert(body.take(dot - start) =~= s@.subrange(start as int, dot as int));
    }
    if dot == start || !digits_in(s, start, dot) {
        return None;
    }
    let frac: u64 = if dot == n {
        0
    } else {
        proof {
            assert(body.skip(dot - start + 1) =~= s@.subrange(dot + 1, n as int));
        }
        if dot + 1 == n || !digits_in(s, dot + 1, n) {
            return None;
        }
        read_fraction(s, dot + 1, n)
    };
    let ghost frac_value: int = if dot == n {
        0
    } else {
        fraction_units(s@.subrange(dot + 1, n as int))
    };
    proof {
        if dot == n {
            assert(body.take(dot - start) =~= body);
        } else {
            assert(body.skip(dot - start + 1) =~= s@.subrange(dot + 1, n as int));
            lemma_fraction_nonneg(s@.subrange(dot + 1, n as int));
        }
    }
    match read_whole(s, start, dot) {
        None => {
            proof {
                let w = digits_value(s@.subrange(start as int, dot as int));
                assert(w * UNIT >= (MAX_WHOLE + 1) * UNIT) by (nonlinear_arith)
                    requires
                        w > MAX_WHOLE,
                ;
            }
            None
        },
        Some(whole) => {
            proof {
                assert(whole * UNIT <= MAX_WHOLE * UNIT) by (nonlinear_arith)
                    requires
                        whole <= MAX_WHOLE,
                ;
            }
            let m: u64 = whole * 100_000_000 + frac;
            if m > 9_223_372_036_854_775_807u64 {
                None
            } else if negative {
                Some(Amount { units: -(m as i64) })
            } else {
                Some(Amount { units: m as i64 })
            }
        },
    }
}

proof fn lemma_fraction_nonneg(f: Seq<char>)
    requires
        all_digits(f),
    ensures
        fraction_units(f) >= 0,
{
    let kept = min_nat(f.len(), FRACTION_DIGITS as nat);
    assert(all_digits(f.take(kept as int))) by {
        assert forall|j: int| 0 <= j < f.take(kept as int).len() implies is_digit(
            #[trigger] f.take(kept as int)[j],
        ) by {
            assert(f.take(kept as int)[j] == f[j]);
        }
    }
    lemma_digits_nonneg(f.take(kept as int));
    lemma_pow10_positive((FRACTION_DIGITS - kept) as nat);
    assert(digits_value(f.take(kept as int)) * pow10((FRACTION_DIGITS - kept) as nat) >= 0)
        by (nonlinear_arith)
        requires
            digits_value(f.take(kept as int)) >= 0,
            pow10((FRACTION_DIGITS - kept) as nat) >= 1,
    ;
}

proof fn lemma_pow10_eight()
    ensures
        pow10(8) == 100_000_000,
{
    reveal_with_fuel(pow10, 9);
}

proof fn lemma_pow10_le(a: nat, b: nat)
    requires
        a <= b,
    ensures
        pow10(a) <= pow10(b),
    decreases b,
{
    if a < b {
        lemma_pow10_le(a, (b - 1) as nat);
        lemma_pow10_positive((b - 1) as nat);
    }
}

} // verus!
